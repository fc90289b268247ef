//! Properties that hold of the engine across calls, proved over the model.

use vstd::math::max;
use vstd::prelude::*;

use crate::model::{chunk_len, lemma_locate, lemma_write_once_props, EngineModel};

verus! {

/// One write request of a caller's retry loop: `data` written at `offset`.
pub ghost struct WriteOp {
    pub offset: int,
    pub data: Seq<u8>,
}

/// The state after performing a sequence of single write calls in order.
pub open spec fn apply_writes(s: EngineModel, ops: Seq<WriteOp>) -> EngineModel
    decreases ops.len(),
{
    if ops.len() == 0 {
        s
    } else {
        apply_writes(s.write_once(ops[0].offset, ops[0].data), ops.skip(1))
    }
}

/// The highest end reached by any of the write calls: the maximum over all
/// calls of `offset + bytes written`, where each call transfers its clamped
/// chunk.
pub open spec fn writes_high_water(quantum_size: int, ops: Seq<WriteOp>) -> int
    decreases ops.len(),
{
    if ops.len() == 0 {
        0
    } else {
        max(
            ops[0].offset + chunk_len(quantum_size, ops[0].offset, ops[0].data.len() as int),
            writes_high_water(quantum_size, ops.skip(1)),
        )
    }
}

/// Every write of the sequence addresses a non-negative offset.
pub open spec fn ops_valid(ops: Seq<WriteOp>) -> bool {
    forall|i: int| 0 <= i < ops.len() ==> (#[trigger] ops[i]).offset >= 0
}

/// A whole write loop preserves well-formedness and the sizes, never
/// shrinks the storage, and raises the content size exactly to the end of
/// the written range when that is higher.
pub proof fn lemma_write_seq_props(s: EngineModel, offset: int, data: Seq<u8>)
    requires
        s.wf(),
        0 <= offset,
    ensures
        ({
            let t = s.write_seq(offset, data);
            &&& t.wf()
            &&& t.quantum_size == s.quantum_size
            &&& t.group_size == s.group_size
            &&& s.quanta.len() <= t.quanta.len()
            &&& t.content_size == if data.len() == 0 {
                s.content_size
            } else {
                max(s.content_size, offset + data.len())
            }
        }),
    decreases data.len(),
{
    if data.len() > 0 {
        lemma_locate(s, offset);
        lemma_write_once_props(s, offset, data);
        let n = chunk_len(s.quantum_size, offset, data.len() as int);
        let s1 = s.write_once(offset, data);
        assert(1 <= n <= data.len());
        lemma_write_seq_props(s1, offset + n, data.skip(n));
    }
}

/// A write loop that starts past a slot never touches that slot.
proof fn lemma_write_seq_frame(s: EngineModel, offset: int, data: Seq<u8>, j: int)
    requires
        s.wf(),
        0 <= offset,
        j < s.quantum_index(offset),
    ensures
        s.write_seq(offset, data).quantum_at(j) == s.quantum_at(j),
    decreases data.len(),
{
    if data.len() > 0 {
        lemma_locate(s, offset);
        lemma_write_once_props(s, offset, data);
        let n = chunk_len(s.quantum_size, offset, data.len() as int);
        let s1 = s.write_once(offset, data);
        vstd::arithmetic::div_mod::lemma_div_is_ordered(offset, offset + n, s.quantum_size);
        lemma_write_seq_frame(s1, offset + n, data.skip(n), j);
    }
}

/// Write/read round trip: writing any byte sequence at any offset with a
/// retrying write loop, then reading the same number of bytes back from the
/// same offset with a retrying read loop, yields exactly that sequence.
pub proof fn lemma_write_read_round_trip(s: EngineModel, offset: int, data: Seq<u8>)
    requires
        s.wf(),
        0 <= offset,
    ensures
        s.write_seq(offset, data).read_seq(offset, data.len() as int) == data,
    decreases data.len(),
{
    let len = data.len() as int;
    let t = s.write_seq(offset, data);
    if data.len() == 0 {
        assert(data =~= Seq::<u8>::empty());
    } else {
        lemma_locate(s, offset);
        lemma_write_once_props(s, offset, data);
        let n = chunk_len(s.quantum_size, offset, len);
        let qi = s.quantum_index(offset);
        let bq = offset % s.quantum_size;
        let s1 = s.write_once(offset, data);
        assert(t == s1.write_seq(offset + n, data.skip(n)));
        lemma_write_seq_props(s1, offset + n, data.skip(n));
        assert(t.content_size >= offset + len);

        // Later chunks of the loop only touch later quanta, so the chunk
        // just written stays as it is in the final state.
        if n < len {
            assert(offset + n == (qi + 1) * s.quantum_size) by (nonlinear_arith)
                requires
                    offset == qi * s.quantum_size + bq,
                    n == s.quantum_size - bq,
            ;
            assert(s1.quantum_index(offset + n) == qi + 1) by {
                vstd::arithmetic::div_mod::lemma_div_by_multiple(qi + 1, s.quantum_size);
            }
            lemma_write_seq_frame(s1, offset + n, data.skip(n), qi);
        }
        assert(t.quantum_at(qi) == s1.quantum_at(qi));

        // The first read call returns exactly the first written chunk.
        let chunk = t.read_once(offset, len);
        assert(chunk == data.take(n));
        assert(chunk.len() == n);

        // The rest of the read loop returns the rest of the data.
        lemma_write_read_round_trip(s1, offset + n, data.skip(n));
        assert(t.read_seq(offset + n, len - n) == data.skip(n));
        assert(t.read_seq(offset, len) == chunk + t.read_seq(offset + n, len - n));
        assert(data.take(n) + data.skip(n) =~= data);
    }
}

/// Hole semantics: reading from an offset whose quantum was never written
/// returns no bytes — not an error — even when the offset lies below the
/// content size.
pub proof fn lemma_hole_read(s: EngineModel, offset: int, len: int)
    requires
        s.quantum_at(s.quantum_index(offset)).len() == 0,
    ensures
        s.read_once(offset, len) == Seq::<u8>::empty(),
        s.read_seq(offset, len) == Seq::<u8>::empty(),
{
    reveal_with_fuel(EngineModel::read_seq, 2);
}

/// Reading at or beyond the content size returns no bytes, for a single
/// call and for a whole read loop.
pub proof fn lemma_eof_read(s: EngineModel, offset: int, len: int)
    requires
        offset >= s.content_size,
    ensures
        s.read_once(offset, len) == Seq::<u8>::empty(),
        s.read_seq(offset, len) == Seq::<u8>::empty(),
{
    reveal_with_fuel(EngineModel::read_seq, 2);
}

/// Monotonic size: after any sequence of single write calls, the content
/// size equals the maximum over all calls of `offset + bytes written` — or
/// stays where it was, if no call reached higher.  In particular no write
/// ever lowers it.
pub proof fn lemma_monotonic_size(s: EngineModel, ops: Seq<WriteOp>)
    requires
        s.wf(),
        ops_valid(ops),
    ensures
        apply_writes(s, ops).content_size == max(
            s.content_size,
            writes_high_water(s.quantum_size, ops),
        ),
    decreases ops.len(),
{
    if ops.len() == 0 {
    } else {
        lemma_write_once_props(s, ops[0].offset, ops[0].data);
        let s1 = s.write_once(ops[0].offset, ops[0].data);
        assert(ops_valid(ops.skip(1)));
        lemma_monotonic_size(s1, ops.skip(1));
    }
}

/// Trim reset: right after a trim (or construction) the content size is
/// zero and any read, at any offset and of any length, returns no bytes.
pub proof fn lemma_trim_reset(quantum_size: int, group_size: int, offset: int, len: int)
    ensures
        EngineModel::fresh(quantum_size, group_size).content_size == 0,
        EngineModel::fresh(quantum_size, group_size).read_once(offset, len) == Seq::<u8>::empty(),
        EngineModel::fresh(quantum_size, group_size).read_seq(offset, len) == Seq::<u8>::empty(),
{
    reveal_with_fuel(EngineModel::read_seq, 2);
}

/// Boundary clamp: a write request that runs past the end of its quantum
/// transfers only the bytes up to that boundary; a second call at the
/// advanced offset transfers all remaining bytes, provided they fit in the
/// next quantum.
pub proof fn lemma_boundary_clamp(s: EngineModel, offset: int, data: Seq<u8>)
    requires
        s.wf(),
        0 <= offset,
        offset % s.quantum_size + data.len() > s.quantum_size,
        data.len() - (s.quantum_size - offset % s.quantum_size) <= s.quantum_size,
    ensures
        ({
            let n1 = chunk_len(s.quantum_size, offset, data.len() as int);
            &&& n1 == s.quantum_size - offset % s.quantum_size
            &&& 0 < n1 < data.len()
            &&& chunk_len(s.quantum_size, offset + n1, data.len() - n1) == data.len() - n1
        }),
{
    lemma_locate(s, offset);
    let qi = s.quantum_index(offset);
    let bq = offset % s.quantum_size;
    let n1 = chunk_len(s.quantum_size, offset, data.len() as int);
    assert(offset + n1 == (qi + 1) * s.quantum_size) by (nonlinear_arith)
        requires
            offset == qi * s.quantum_size + bq,
            n1 == s.quantum_size - bq,
    ;
    assert((offset + n1) % s.quantum_size == 0) by {
        vstd::arithmetic::div_mod::lemma_mod_multiples_basic(qi + 1, s.quantum_size);
    }
}

} // verus!
