//! An in-memory, sparse, character-oriented storage engine.
//!
//! The engine maps 64-bit byte offsets onto a lazily grown, two-level
//! structure of fixed-size byte buffers ("quanta", grouped into sets of
//! `group_size` slots).  Writes allocate storage on first touch; reads never
//! do.  A trim discards all storage and re-snapshots the configured sizes.
//!
//! `model` holds the mathematical model the contracts speak of, `engine` the
//! executable engine, `device` the open/seek/ioctl surface, and `laws` the
//! proved properties that relate several operations.

pub mod device;
pub mod engine;
pub mod laws;
pub mod model;
