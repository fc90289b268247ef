use scull::device::{ioctl, open, seek, AccessMode, Config, ScullError};
use scull::engine::StorageEngine;

fn small_engine() -> StorageEngine {
    StorageEngine::new(Config { quantum: 4, qset: 2 }).unwrap()
}

#[test]
fn new_rejects_zero_quantum() {
    let r = StorageEngine::new(Config { quantum: 0, qset: 2 });
    assert!(matches!(r, Err(ScullError::Configuration)));
}

#[test]
fn new_rejects_negative_qset() {
    let r = StorageEngine::new(Config { quantum: 4, qset: -1 });
    assert!(matches!(r, Err(ScullError::Configuration)));
}

#[test]
fn new_engine_is_empty() {
    let e = small_engine();
    assert_eq!(e.content_size(), 0);
    assert_eq!(e.read(8, 0), Vec::<u8>::new());
}

#[test]
fn scenario_quantum_four_group_two() {
    // quantum = 4, group = 2: writing ten bytes takes calls of 4, 4 and 2.
    let mut e = small_engine();
    let data: Vec<u8> = (1..=10).collect();
    let n1 = e.write(&data, 0);
    assert_eq!(n1, 4);
    let n2 = e.write(&data[n1..], n1 as u64);
    assert_eq!(n2, 4);
    let n3 = e.write(&data[n1 + n2..], (n1 + n2) as u64);
    assert_eq!(n3, 2);
    assert_eq!(e.content_size(), 10);

    assert_eq!(e.read_all(10, 0), data);

    // Reading at the content size is end-of-data: no bytes.
    assert_eq!(e.read(5, 10), Vec::<u8>::new());

    // After a trim, a read at offset 0 returns no bytes.
    e.trim(Config { quantum: 4, qset: 2 }).unwrap();
    assert_eq!(e.content_size(), 0);
    assert_eq!(e.read(1, 0), Vec::<u8>::new());
}

#[test]
fn write_only_open_discards_content() {
    let mut e = small_engine();
    e.write_all(&[7u8; 50], 0);
    assert_eq!(e.content_size(), 50);
    open(&mut e, AccessMode::WriteOnly, Config { quantum: 4, qset: 2 }).unwrap();
    assert_eq!(e.content_size(), 0);
    assert_eq!(e.read(1, 0), Vec::<u8>::new());
}

#[test]
fn read_open_keeps_content() {
    let mut e = small_engine();
    e.write_all(&[7u8; 10], 0);
    open(&mut e, AccessMode::ReadOnly, Config { quantum: 4, qset: 2 }).unwrap();
    assert_eq!(e.content_size(), 10);
    open(&mut e, AccessMode::ReadWrite, Config { quantum: 4, qset: 2 }).unwrap();
    assert_eq!(e.content_size(), 10);
    assert_eq!(e.read_all(10, 0), vec![7u8; 10]);
}

#[test]
fn write_only_open_with_bad_config_fails() {
    let mut e = small_engine();
    e.write_all(&[3u8; 6], 0);
    let r = open(&mut e, AccessMode::WriteOnly, Config { quantum: -4, qset: 2 });
    assert!(matches!(r, Err(ScullError::Configuration)));
    // The failed trim left the engine untouched.
    assert_eq!(e.content_size(), 6);
    assert_eq!(e.read_all(6, 0), vec![3u8; 6]);
}

#[test]
fn round_trip_across_groups() {
    // quantum = 4, group = 2: a group spans 8 bytes, so this write crosses
    // quantum and group boundaries.
    let mut e = small_engine();
    let data: Vec<u8> = (100..120).collect();
    e.write_all(&data, 5);
    assert_eq!(e.content_size(), 25);
    assert_eq!(e.read_all(20, 5), data);
}

#[test]
fn round_trip_large_offsets() {
    let mut e = StorageEngine::new(Config { quantum: 4000, qset: 1000 }).unwrap();
    let data: Vec<u8> = (0..9000).map(|i: u32| (i % 251) as u8).collect();
    e.write_all(&data, 7_999_999);
    assert_eq!(e.content_size(), 7_999_999 + 9000);
    assert_eq!(e.read_all(9000, 7_999_999), data);
}

#[test]
fn hole_below_content_reads_nothing() {
    let mut e = small_engine();
    // Touch only the third quantum: bytes 0..8 stay holes.
    e.write_all(&[1, 2, 3, 4], 8);
    assert_eq!(e.content_size(), 12);
    assert_eq!(e.read(4, 0), Vec::<u8>::new());
    assert_eq!(e.read(2, 5), Vec::<u8>::new());
    assert_eq!(e.read_all(12, 0), Vec::<u8>::new());
    assert_eq!(e.read_all(4, 8), vec![1, 2, 3, 4]);
}

#[test]
fn read_at_or_past_end_returns_nothing() {
    let mut e = small_engine();
    e.write_all(&[9u8; 6], 0);
    assert_eq!(e.read(1, 6), Vec::<u8>::new());
    assert_eq!(e.read(100, 1000), Vec::<u8>::new());
    assert_eq!(e.read_all(5, 6), Vec::<u8>::new());
}

#[test]
fn single_read_stops_at_quantum_boundary() {
    let mut e = small_engine();
    e.write_all(&[5u8; 10], 0);
    // One call reads at most to the end of the current quantum.
    assert_eq!(e.read(10, 0), vec![5u8; 4]);
    assert_eq!(e.read(10, 6), vec![5u8; 2]);
}

#[test]
fn boundary_clamp_takes_two_calls() {
    // Six bytes at offset 2 span the boundary at 4: the first call writes
    // two bytes, the second the remaining four.
    let mut e = small_engine();
    let data: Vec<u8> = vec![11, 12, 13, 14, 15, 16];
    let n1 = e.write(&data, 2);
    assert_eq!(n1, 2);
    let n2 = e.write(&data[n1..], 2 + n1 as u64);
    assert_eq!(n2, 4);
    assert_eq!(e.read_all(6, 2), data);
}

#[test]
fn content_size_is_monotonic() {
    let mut e = small_engine();
    e.write_all(&[1u8; 4], 20);
    assert_eq!(e.content_size(), 24);
    // Writing earlier data never lowers the high-water mark.
    e.write_all(&[2u8; 4], 0);
    assert_eq!(e.content_size(), 24);
    e.write_all(&[3u8; 4], 30);
    assert_eq!(e.content_size(), 34);
}

#[test]
fn empty_single_write_raises_size_to_offset() {
    // A single zero-length write still allocates its quantum and accounts
    // offset + 0 bytes, exactly as the device does.
    let mut e = small_engine();
    let n = e.write(&[], 9);
    assert_eq!(n, 0);
    assert_eq!(e.content_size(), 9);
}

#[test]
fn empty_write_loop_changes_nothing() {
    let mut e = small_engine();
    e.write_all(&[], 9);
    assert_eq!(e.content_size(), 0);
}

#[test]
fn overwrite_replaces_bytes_in_place() {
    let mut e = small_engine();
    e.write_all(&[1, 2, 3, 4, 5, 6, 7, 8], 0);
    e.write_all(&[9, 9], 3);
    assert_eq!(e.read_all(8, 0), vec![1, 2, 3, 9, 9, 6, 7, 8]);
    assert_eq!(e.content_size(), 8);
}

#[test]
fn trim_resnapshots_configuration() {
    let mut e = small_engine();
    e.write_all(&[1u8; 10], 0);
    e.trim(Config { quantum: 3, qset: 1 }).unwrap();
    assert_eq!(e.content_size(), 0);
    // The new quantum size governs the clamp from now on.
    let n = e.write(&[1, 2, 3, 4, 5], 0);
    assert_eq!(n, 3);
}

#[test]
fn trim_rejects_bad_config_and_keeps_state() {
    let mut e = small_engine();
    e.write_all(&[4u8; 5], 0);
    let r = e.trim(Config { quantum: 4, qset: 0 });
    assert!(matches!(r, Err(ScullError::Configuration)));
    assert_eq!(e.content_size(), 5);
    assert_eq!(e.read_all(5, 0), vec![4u8; 5]);
}

#[test]
fn seek_is_unsupported() {
    assert!(matches!(seek(0), Err(ScullError::Unsupported)));
    assert!(matches!(seek(12345), Err(ScullError::Unsupported)));
}

#[test]
fn every_ioctl_is_unsupported() {
    assert!(matches!(ioctl(0), Err(ScullError::Unsupported)));
    assert!(matches!(ioctl(0xABCD), Err(ScullError::Unsupported)));
}
