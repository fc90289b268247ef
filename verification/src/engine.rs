//! The executable storage engine.
//!
//! Every method's contract is stated over the engine's view, an
//! `EngineModel`; the model's transition functions say exactly what each
//! call returns and how it changes the state.

use vstd::prelude::*;

use crate::device::{Config, ScullError};
use crate::model::{chunk_len, lemma_locate, lemma_write_once_props, EngineModel};

verus! {

/// The in-memory storage engine: two snapshotted sizes, the high-water mark
/// of written bytes, and the quantum buffers, kept flat but grown a whole
/// group of slots at a time.  An empty buffer is a hole.
pub struct StorageEngine {
    quantum_size: u64,
    group_size: u64,
    content_size: u64,
    quanta: Vec<Vec<u8>>,
}

impl View for StorageEngine {
    type V = EngineModel;

    closed spec fn view(&self) -> EngineModel {
        EngineModel {
            quantum_size: self.quantum_size as int,
            group_size: self.group_size as int,
            content_size: self.content_size as int,
            quanta: Seq::new(self.quanta@.len(), |i: int| self.quanta@[i]@),
        }
    }
}

impl StorageEngine {
    /// Constructs an engine with no storage and no content, snapshotting
    /// the configured sizes; rejects a non-positive size.
    pub fn new(config: Config) -> (r: Result<StorageEngine, ScullError>)
        ensures
            r is Ok <==> config.valid(),
            r matches Ok(engine) ==> engine@ == EngineModel::fresh(
                config.quantum as int,
                config.qset as int,
            ) && engine@.wf(),
            r matches Err(e) ==> e == ScullError::Configuration,
    {
        if config.quantum <= 0 || config.qset <= 0 {
            return Err(ScullError::Configuration);
        }
        let engine = StorageEngine {
            quantum_size: config.quantum as u64,
            group_size: config.qset as u64,
            content_size: 0,
            quanta: Vec::new(),
        };
        proof {
            engine@.lemma_fresh_equal(config.quantum as int, config.qset as int);
        }
        Ok(engine)
    }

    /// Discards all storage and content and re-snapshots the configured
    /// sizes; rejects a non-positive size, leaving the engine untouched.
    pub fn trim(&mut self, config: Config) -> (r: Result<(), ScullError>)
        ensures
            r is Ok <==> config.valid(),
            r is Ok ==> final(self)@ == EngineModel::fresh(
                config.quantum as int,
                config.qset as int,
            ) && final(self)@.wf(),
            r matches Err(e) ==> e == ScullError::Configuration && *final(self) == *old(self),
    {
        if config.quantum <= 0 || config.qset <= 0 {
            return Err(ScullError::Configuration);
        }
        self.quantum_size = config.quantum as u64;
        self.group_size = config.qset as u64;
        self.content_size = 0;
        self.quanta = Vec::new();
        proof {
            self@.lemma_fresh_equal(config.quantum as int, config.qset as int);
        }
        Ok(())
    }

    /// The logical end of the data: the high-water mark of bytes written
    /// since the last trim.
    pub fn content_size(&self) -> (r: u64)
        ensures
            r as int == self@.content_size,
    {
        self.content_size
    }

    /// Grows the storage, a whole group of empty slots at a time, until the
    /// group with the given index exists.  Growth is append-only: existing
    /// slots are untouched.
    fn ensure_group(&mut self, group_index: u64)
        requires
            old(self)@.wf(),
            (group_index + 1) * old(self)@.group_size <= usize::MAX,
        ensures
            final(self)@ == old(self)@.grown(group_index as int),
    {
        proof {
            let g = old(self)@.group_size;
            assert(group_index + 1 <= (group_index + 1) * g) by (nonlinear_arith)
                requires
                    g >= 1,
            ;
        }
        let needed: u64 = (group_index + 1) * self.group_size;
        while (self.quanta.len() as u64) < needed
            invariant
                self@.quantum_size == old(self)@.quantum_size,
                self@.group_size == old(self)@.group_size,
                self@.content_size == old(self)@.content_size,
                old(self)@.quanta.len() <= self@.quanta.len(),
                old(self)@.quanta.len() < needed ==> self@.quanta.len() <= needed,
                old(self)@.quanta.len() >= needed ==> self@.quanta.len() == old(
                    self,
                )@.quanta.len(),
                needed == (group_index + 1) * old(self)@.group_size,
                forall|i: int|
                    0 <= i < old(self)@.quanta.len() ==> #[trigger] self@.quanta[i] == old(
                        self,
                    )@.quanta[i],
                forall|i: int|
                    old(self)@.quanta.len() <= i < self@.quanta.len() ==> (
                    #[trigger] self@.quanta[i]) == Seq::<u8>::empty(),
            decreases needed - self.quanta.len(),
        {
            let ghost pre = self@;
            self.quanta.push(Vec::new());
            proof {
                assert(self@.quanta.len() == pre.quanta.len() + 1);
                assert forall|i: int| 0 <= i < old(self)@.quanta.len() implies self@.quanta[i]
                    == old(self)@.quanta[i] by {
                    assert(self@.quanta[i] == self.quanta@[i]@);
                    assert(self@.quanta[i] == pre.quanta[i]);
                    assert(pre.quanta[i] == old(self)@.quanta[i]);
                }
                assert forall|i: int|
                    old(self)@.quanta.len() <= i < self@.quanta.len() implies self@.quanta[i]
                    == Seq::<u8>::empty() by {
                    assert(self@.quanta[i] == self.quanta@[i]@);
                    if i < pre.quanta.len() {
                        assert(self@.quanta[i] == pre.quanta[i]);
                        assert(pre.quanta[i] == Seq::<u8>::empty());
                    }
                }
            }
        }
        proof {
            assert(self@ =~= old(self)@.grown(group_index as int));
        }
    }

    /// A single write call.  The transfer is clamped at the end of the
    /// quantum holding `offset`; the group is grown and the quantum
    /// allocated (zero-filled) on first touch; the content size rises to
    /// the end of the write when that is higher.  Returns the number of
    /// bytes written; a caller that wants everything written loops,
    /// advancing the offset (see `write_all`).
    pub fn write(&mut self, data: &[u8], offset: u64) -> (n: usize)
        requires
            old(self)@.wf(),
            offset + data@.len() <= u64::MAX,
            (old(self)@.group_index(offset as int) + 1) * old(self)@.group_size <= usize::MAX,
        ensures
            final(self)@ == old(self)@.write_once(offset as int, data@),
            final(self)@.wf(),
            n as int == chunk_len(old(self)@.quantum_size, offset as int, data@.len() as int),
            n <= data@.len(),
    {
        proof {
            lemma_locate(self@, offset as int);
            lemma_write_once_props(self@, offset as int, data@);
            let q = self@.quantum_size;
            let g = self@.group_size;
            assert(q * g <= 0x4000_0000_0000_0000) by (nonlinear_arith)
                requires
                    0 < q <= i32::MAX,
                    0 < g <= i32::MAX,
            ;
        }
        let quantum_size: u64 = self.quantum_size;
        let group_size: u64 = self.group_size;
        let item_size: u64 = quantum_size * group_size;
        let item: u64 = offset / item_size;
        let rest: u64 = offset % item_size;
        let s_pos: u64 = rest / quantum_size;
        let q_pos: u64 = rest % quantum_size;
        let mut to_write: u64 = data.len() as u64;
        if to_write > quantum_size - q_pos {
            to_write = quantum_size - q_pos;
        }
        self.ensure_group(item);
        let flat: u64 = item * group_size + s_pos;
        let qi: usize = flat as usize;
        let ghost s1 = self@;
        proof {
            assert(s1.quanta.len() == old(self)@.write_once(offset as int, data@).quanta.len());
        }
        let mut fresh_q: Vec<u8> = Vec::new();
        let mut j: u64 = 0;
        while j < quantum_size
            invariant
                j <= quantum_size,
                self@ == s1,
                s1.quantum_size == quantum_size,
                0 <= qi < s1.quanta.len(),
                s1.quanta[qi as int].len() == 0 || s1.quanta[qi as int].len() == quantum_size,
                q_pos + to_write <= quantum_size,
                to_write <= data@.len(),
                fresh_q@.len() == j,
                forall|x: int|
                    0 <= x < j ==> fresh_q@[x] == (if q_pos <= x < q_pos + to_write {
                        data@[x - q_pos]
                    } else if s1.quanta[qi as int].len() == 0 {
                        0u8
                    } else {
                        s1.quanta[qi as int][x]
                    }),
            decreases quantum_size - j,
        {
            let b: u8 = if q_pos <= j && j < q_pos + to_write {
                data[(j - q_pos) as usize]
            } else if self.quanta[qi].len() > 0 {
                self.quanta[qi][j as usize]
            } else {
                0
            };
            fresh_q.push(b);
            j = j + 1;
        }
        proof {
            assert(fresh_q@ =~= old(self)@.write_once(offset as int, data@).quanta[qi as int]);
        }
        self.quanta[qi] = fresh_q;
        let end: u64 = offset + to_write;
        if self.content_size < end {
            self.content_size = end;
        }
        proof {
            assert(self@ =~= old(self)@.write_once(offset as int, data@));
        }
        to_write as usize
    }

    /// Writes all of `data` at `offset` by looping over single write calls
    /// and advancing the offset by the bytes each call reports — exactly
    /// the retry loop a caller of the device is expected to run.
    pub fn write_all(&mut self, data: &[u8], offset: u64)
        requires
            old(self)@.wf(),
            offset + data@.len() <= u64::MAX,
            data@.len() > 0 ==> (old(self)@.group_index(offset + data@.len() - 1) + 1) * old(
                self,
            )@.group_size <= usize::MAX,
        ensures
            final(self)@ == old(self)@.write_seq(offset as int, data@),
            final(self)@.wf(),
    {
        let mut written: usize = 0;
        proof {
            assert(data@.skip(0) =~= data@);
        }
        while written < data.len()
            invariant
                self@.wf(),
                self@.quantum_size == old(self)@.quantum_size,
                self@.group_size == old(self)@.group_size,
                written <= data@.len(),
                offset + data@.len() <= u64::MAX,
                data@.len() > 0 ==> (old(self)@.group_index(offset + data@.len() - 1) + 1) * old(
                    self,
                )@.group_size <= usize::MAX,
                old(self)@.write_seq(offset as int, data@) == self@.write_seq(
                    offset + written,
                    data@.skip(written as int),
                ),
            decreases data@.len() - written,
        {
            let ghost pre = self@;
            let ghost rest = data@.skip(written as int);
            proof {
                assert(rest =~= data@.subrange(written as int, data@.len() as int));
                lemma_locate(pre, offset + written);
                vstd::arithmetic::div_mod::lemma_div_is_ordered(
                    offset + written,
                    offset + data@.len() - 1,
                    pre.item_size(),
                );
                vstd::arithmetic::mul::lemma_mul_inequality(
                    pre.group_index(offset + written) + 1,
                    old(self)@.group_index(offset + data@.len() - 1) + 1,
                    pre.group_size,
                );
            }
            let chunk: &[u8] = vstd::slice::slice_subrange(data, written, data.len());
            let n = self.write(chunk, offset + written as u64);
            proof {
                assert(n >= 1);
                assert(rest.skip(n as int) =~= data@.skip(written + n));
                assert(pre.write_seq(offset + written, rest) == self@.write_seq(
                    offset + written + n,
                    rest.skip(n as int),
                ));
            }
            written = written + n;
        }
    }

    /// A single read call.  Returns no bytes at or past the content size,
    /// and at a hole (a quantum never written) — reads allocate nothing;
    /// otherwise returns the requested bytes, clamped to the content size
    /// and to the end of the quantum holding `offset`.  A caller that wants
    /// everything loops (see `read_all`).
    pub fn read(&self, len: usize, offset: u64) -> (r: Vec<u8>)
        requires
            self@.wf(),
        ensures
            r@ == self@.read_once(offset as int, len as int),
    {
        proof {
            lemma_locate(self@, offset as int);
            let q = self@.quantum_size;
            let g = self@.group_size;
            assert(q * g <= 0x4000_0000_0000_0000) by (nonlinear_arith)
                requires
                    0 < q <= i32::MAX,
                    0 < g <= i32::MAX,
            ;
        }
        if offset >= self.content_size {
            return Vec::new();
        }
        let mut to_read: u64 = len as u64;
        if to_read > self.content_size - offset {
            to_read = self.content_size - offset;
        }
        let quantum_size: u64 = self.quantum_size;
        let item_size: u64 = quantum_size * self.group_size;
        let item: u64 = offset / item_size;
        let rest: u64 = offset % item_size;
        let s_pos: u64 = rest / quantum_size;
        let q_pos: u64 = rest % quantum_size;
        let flat: u64 = item * self.group_size + s_pos;
        proof {
            let q = self@.quantum_size;
            let m = self@.quanta.len() as int;
            assert(q * m == m * q) by (nonlinear_arith);
            assert(offset < q * m);
            vstd::arithmetic::div_mod::lemma_multiply_divide_lt(offset as int, q, m);
            assert(flat < self@.quanta.len());
            assert(self@.quanta[flat as int] == self.quanta@[flat as int]@);
        }
        let slot_count: usize = self.quanta.len();
        proof {
            assert(flat < slot_count);
        }
        let qi: usize = flat as usize;
        if self.quanta[qi].len() == 0 {
            proof {
                assert(flat as int == self@.quantum_index(offset as int));
                assert(self@.quantum_at(flat as int).len() == 0);
                assert(self@.read_once(offset as int, len as int) =~= Seq::<u8>::empty());
            }
            return Vec::new();
        }
        if to_read > quantum_size - q_pos {
            to_read = quantum_size - q_pos;
        }
        let mut out: Vec<u8> = Vec::new();
        let mut k: u64 = 0;
        while k < to_read
            invariant
                self@.wf(),
                k <= to_read,
                0 <= qi < self@.quanta.len(),
                self@.quanta[qi as int] == self.quanta@[qi as int]@,
                self@.quanta[qi as int].len() == self@.quantum_size,
                q_pos + to_read <= self@.quantum_size,
                out@.len() == k,
                forall|x: int| 0 <= x < k ==> out@[x] == self@.quanta[qi as int][q_pos + x],
            decreases to_read - k,
        {
            out.push(self.quanta[qi][(q_pos + k) as usize]);
            k = k + 1;
        }
        proof {
            assert(out@ =~= self@.read_once(offset as int, len as int));
        }
        out
    }

    /// Reads up to `len` bytes at `offset` by looping over single read
    /// calls and advancing the offset by the bytes each call returns,
    /// stopping — as a caller of the device would — as soon as a call
    /// returns nothing: at the end of the content or at a hole.
    pub fn read_all(&self, len: usize, offset: u64) -> (r: Vec<u8>)
        requires
            self@.wf(),
            offset + len <= u64::MAX,
        ensures
            r@ == self@.read_seq(offset as int, len as int),
    {
        let mut out: Vec<u8> = Vec::new();
        loop
            invariant
                self@.wf(),
                offset + len <= u64::MAX,
                out@.len() <= len,
                self@.read_seq(offset as int, len as int) == out@ + self@.read_seq(
                    offset + out@.len(),
                    len - out@.len(),
                ),
            ensures
                out@ == self@.read_seq(offset as int, len as int),
            decreases len - out@.len(),
        {
            let got: usize = out.len();
            let ghost rem = len - got as int;
            let mut chunk = self.read(len - got, offset + got as u64);
            if chunk.len() == 0 {
                proof {
                    assert(self@.read_seq(offset + got, rem) =~= Seq::<u8>::empty());
                    assert(out@ + self@.read_seq(offset + got, rem) =~= out@);
                }
                break;
            }
            proof {
                let c = chunk@.len() as int;
                assert(c <= rem);
                assert(self@.read_seq(offset + got, rem) == chunk@ + self@.read_seq(
                    offset + got + c,
                    rem - c,
                ));
                assert(out@ + (chunk@ + self@.read_seq(offset + got + c, rem - c)) =~= (out@
                    + chunk@) + self@.read_seq(offset + got + c, rem - c));
            }
            out.append(&mut chunk);
        }
        out
    }
}

impl EngineModel {
    /// A model with valid sizes and no slots equals the fresh model of
    /// those sizes, and is well formed.
    proof fn lemma_fresh_equal(self, quantum_size: int, group_size: int)
        requires
            self.quantum_size == quantum_size,
            self.group_size == group_size,
            self.content_size == 0,
            self.quanta.len() == 0,
            0 < quantum_size <= i32::MAX,
            0 < group_size <= i32::MAX,
        ensures
            self == EngineModel::fresh(quantum_size, group_size),
            self.wf(),
    {
        assert(self.quanta =~= EngineModel::fresh(quantum_size, group_size).quanta);
        assert(self.quanta.len() as int % self.group_size == 0) by {
            vstd::arithmetic::div_mod::lemma_small_mod(0nat, group_size as nat);
        }
    }
}

} // verus!
