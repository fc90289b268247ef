//! The mathematical model of the storage engine.
//!
//! A model value mirrors the engine's state: the two snapshotted sizes, the
//! logical content size, and the quantum buffers, flattened group by group
//! into one sequence.  An empty sequence in a slot is a hole: a quantum that
//! was never written.  The transition functions below say exactly what one
//! read or write call does, and what a caller's retry loop does in total.

use vstd::math::{max, min};
use vstd::prelude::*;

verus! {

/// The state of the storage engine, as the contracts speak of it.
#[verifier::ext_equal]
pub ghost struct EngineModel {
    /// Capacity in bytes of one quantum buffer; positive between trims.
    pub quantum_size: int,
    /// Number of quantum slots in one group; positive between trims.
    pub group_size: int,
    /// High-water mark of bytes ever written since the last trim.
    pub content_size: int,
    /// All quantum slots, group by group; an empty sequence is a hole.
    pub quanta: Seq<Seq<u8>>,
}

/// How many bytes a single read or write call transfers: the request is
/// clamped so that it never crosses the boundary of the quantum holding
/// `offset`.
pub open spec fn chunk_len(quantum_size: int, offset: int, len: int) -> int {
    min(len, quantum_size - offset % quantum_size)
}

impl EngineModel {
    /// The state right after construction or a trim: no storage, no content,
    /// the sizes snapshotted from the configuration.
    pub open spec fn fresh(quantum_size: int, group_size: int) -> EngineModel {
        EngineModel { quantum_size, group_size, content_size: 0, quanta: Seq::empty() }
    }

    /// Bytes addressed by one group: `quantum_size * group_size`.
    pub open spec fn item_size(self) -> int {
        self.quantum_size * self.group_size
    }

    /// First level of the addressing function: which group holds `offset`.
    pub open spec fn group_index(self, offset: int) -> int {
        offset / self.item_size()
    }

    /// Second level of the addressing function: which slot of that group.
    pub open spec fn slot_index(self, offset: int) -> int {
        (offset % self.item_size()) / self.quantum_size
    }

    /// Third level of the addressing function: which byte of that quantum.
    pub open spec fn byte_in_quantum(self, offset: int) -> int {
        (offset % self.item_size()) % self.quantum_size
    }

    /// The slot holding `offset`, counted over all groups.  The two-level
    /// addressing collapses to this flat index: see `lemma_locate`.
    pub open spec fn quantum_index(self, offset: int) -> int {
        offset / self.quantum_size
    }

    /// Both snapshotted sizes are positive and came from the configuration's
    /// 32-bit knobs.
    pub open spec fn valid_sizes(self) -> bool {
        0 < self.quantum_size <= i32::MAX && 0 < self.group_size <= i32::MAX
    }

    /// Well-formedness: sizes are valid, groups are complete (the slot count
    /// is a whole number of groups), every allocated quantum has exactly
    /// `quantum_size` bytes, and the content size never exceeds the
    /// capacity of the allocated storage.
    pub open spec fn wf(self) -> bool {
        &&& self.valid_sizes()
        &&& self.quanta.len() as int % self.group_size == 0
        &&& forall|i: int|
            0 <= i < self.quanta.len() ==> ((#[trigger] self.quanta[i]).len() == 0
                || self.quanta[i].len() == self.quantum_size)
        &&& 0 <= self.content_size <= self.quanta.len() * self.quantum_size
    }

    /// The quantum in slot `qi`; slots beyond the allocated storage are
    /// holes.
    pub open spec fn quantum_at(self, qi: int) -> Seq<u8> {
        if 0 <= qi < self.quanta.len() {
            self.quanta[qi]
        } else {
            Seq::empty()
        }
    }

    /// What one read call returns.  At or past the end of the content, or at
    /// a hole, it returns no bytes; otherwise it returns the requested
    /// bytes, clamped to the content size and to the current quantum.
    pub open spec fn read_once(self, offset: int, len: int) -> Seq<u8> {
        if offset >= self.content_size || len <= 0 {
            Seq::empty()
        } else {
            let q = self.quantum_at(self.quantum_index(offset));
            if q.len() == 0 {
                Seq::empty()
            } else {
                let bq = offset % self.quantum_size;
                let n = min(chunk_len(self.quantum_size, offset, len), self.content_size - offset);
                q.subrange(bq, bq + n)
            }
        }
    }

    /// Growth of the storage so that group `group_index` exists: whole
    /// groups of empty slots are appended, never holes in the group
    /// structure itself.
    pub open spec fn grown(self, group_index: int) -> EngineModel {
        let needed = (group_index + 1) * self.group_size;
        if needed <= self.quanta.len() {
            self
        } else {
            EngineModel {
                quanta: self.quanta + Seq::new(
                    (needed - self.quanta.len()) as nat,
                    |i: int| Seq::empty(),
                ),
                ..self
            }
        }
    }

    /// What one write call does: grow the groups to reach the target, fill
    /// the target quantum with zeroes if it was a hole, copy the clamped
    /// byte range in, and raise the content size to the end of the write if
    /// that is higher.
    pub open spec fn write_once(self, offset: int, data: Seq<u8>) -> EngineModel {
        let n = chunk_len(self.quantum_size, offset, data.len() as int);
        let qi = self.quantum_index(offset);
        let bq = offset % self.quantum_size;
        let s1 = self.grown(self.group_index(offset));
        let q0 = s1.quantum_at(qi);
        let base = if q0.len() == 0 {
            Seq::new(self.quantum_size as nat, |i: int| 0u8)
        } else {
            q0
        };
        let q1 = Seq::new(
            base.len(),
            |i: int|
                if bq <= i < bq + n {
                    data[i - bq]
                } else {
                    base[i]
                },
        );
        EngineModel {
            quanta: s1.quanta.update(qi, q1),
            content_size: max(self.content_size, offset + n),
            ..s1
        }
    }

    /// What a caller's write loop does in total: write one clamped chunk,
    /// advance the offset by the bytes written, and continue with the rest
    /// of the data until none is left.
    pub open spec fn write_seq(self, offset: int, data: Seq<u8>) -> EngineModel
        decreases data.len(),
    {
        if data.len() == 0 || self.quantum_size <= 0 {
            self
        } else {
            let n = chunk_len(self.quantum_size, offset, data.len() as int);
            self.write_once(offset, data).write_seq(offset + n, data.skip(n))
        }
    }

    /// What a caller's read loop does in total: read one clamped chunk,
    /// advance by the bytes returned, and stop as soon as a call returns no
    /// bytes (end of content or a hole) or the request is satisfied.
    pub open spec fn read_seq(self, offset: int, len: int) -> Seq<u8>
        decreases len,
    {
        if len <= 0 {
            Seq::empty()
        } else {
            let chunk = self.read_once(offset, len);
            if chunk.len() == 0 || chunk.len() > len {
                Seq::empty()
            } else {
                chunk + self.read_seq(offset + chunk.len(), len - chunk.len())
            }
        }
    }
}

/// The two-level addressing function is sound: the group, slot and byte
/// indices are in range, and group and slot together select the same slot
/// as the flat quantum index.
pub proof fn lemma_locate(s: EngineModel, offset: int)
    requires
        s.valid_sizes(),
        0 <= offset,
    ensures
        0 < s.item_size(),
        0 <= s.group_index(offset),
        0 <= s.slot_index(offset) < s.group_size,
        s.byte_in_quantum(offset) == offset % s.quantum_size,
        s.quantum_index(offset) == s.group_index(offset) * s.group_size + s.slot_index(offset),
        0 <= s.quantum_index(offset) <= offset,
        s.quantum_index(offset) < (s.group_index(offset) + 1) * s.group_size,
        offset == s.quantum_index(offset) * s.quantum_size + offset % s.quantum_size,
        0 <= offset % s.quantum_size < s.quantum_size,
{
    let q = s.quantum_size;
    let g = s.group_size;
    let isz = s.item_size();
    vstd::arithmetic::mul::lemma_mul_strictly_positive(q, g);
    vstd::arithmetic::div_mod::lemma_fundamental_div_mod(offset, isz);
    vstd::arithmetic::div_mod::lemma_mod_bound(offset, isz);
    vstd::arithmetic::div_mod::lemma_div_pos_is_pos(offset, isz);
    let gi = s.group_index(offset);
    let rest = offset % isz;
    vstd::arithmetic::div_mod::lemma_fundamental_div_mod(rest, q);
    vstd::arithmetic::div_mod::lemma_mod_bound(rest, q);
    vstd::arithmetic::div_mod::lemma_div_pos_is_pos(rest, q);
    let si = s.slot_index(offset);
    let bq = rest % q;
    vstd::arithmetic::div_mod::lemma_multiply_divide_lt(rest, q, g);
    assert(offset == (g * gi + si) * q + bq) by (nonlinear_arith)
        requires
            offset == (q * g) * gi + rest,
            rest == q * si + bq,
    ;
    vstd::arithmetic::div_mod::lemma_fundamental_div_mod_converse(offset, q, g * gi + si, bq);
    assert(g * gi + si == gi * g + si) by (nonlinear_arith);
    assert(gi * g + si < (gi + 1) * g) by (nonlinear_arith)
        requires
            si < g,
    ;
    vstd::arithmetic::div_mod::lemma_div_nonincreasing(offset, q);
}

/// What one write call guarantees at the model level: well-formedness and
/// the sizes are preserved, storage only grows, the target quantum is
/// allocated and carries the written bytes, every other quantum is
/// untouched, and the content size rises exactly to the end of the write
/// when that is higher.
pub proof fn lemma_write_once_props(s: EngineModel, offset: int, data: Seq<u8>)
    requires
        s.wf(),
        0 <= offset,
    ensures
        ({
            let t = s.write_once(offset, data);
            let n = chunk_len(s.quantum_size, offset, data.len() as int);
            let qi = s.quantum_index(offset);
            let bq = offset % s.quantum_size;
            &&& t.wf()
            &&& t.quantum_size == s.quantum_size
            &&& t.group_size == s.group_size
            &&& t.content_size == max(s.content_size, offset + n)
            &&& s.quanta.len() <= t.quanta.len()
            &&& 0 <= n <= data.len()
            &&& 0 <= qi < t.quanta.len()
            &&& t.quantum_at(qi).len() == s.quantum_size
            &&& t.quantum_at(qi).subrange(bq, bq + n) == data.take(n)
            &&& forall|j: int| j != qi ==> t.quantum_at(j) == s.quantum_at(j)
        }),
{
    lemma_locate(s, offset);
    let t = s.write_once(offset, data);
    let n = chunk_len(s.quantum_size, offset, data.len() as int);
    let qi = s.quantum_index(offset);
    let bq = offset % s.quantum_size;
    let gi = s.group_index(offset);
    let s1 = s.grown(gi);
    let needed = (gi + 1) * s.group_size;
    let len0 = s.quanta.len() as int;
    let len1 = s1.quanta.len() as int;

    // The grown storage is a whole number of groups and reaches the target.
    vstd::arithmetic::mul::lemma_mul_strictly_positive(gi + 1, s.group_size);
    if needed > len0 {
        assert(len1 == needed);
        assert(len1 as int % s.group_size == 0) by {
            vstd::arithmetic::div_mod::lemma_mod_multiples_basic(gi + 1, s.group_size);
        }
    }
    assert(qi < len1);
    assert(len0 <= len1);

    // Every slot of the grown storage is still a hole or a full quantum,
    // and slots below the old length are unchanged.
    assert(forall|j: int|
        0 <= j < len1 ==> (#[trigger] s1.quanta[j]).len() == 0 || s1.quanta[j].len()
            == s.quantum_size);
    assert(forall|j: int| j != qi ==> s1.quantum_at(j) == s.quantum_at(j));

    // The written quantum has full length and carries the data.
    let q0 = s1.quantum_at(qi);
    let base = if q0.len() == 0 {
        Seq::new(s.quantum_size as nat, |i: int| 0u8)
    } else {
        q0
    };
    assert(base.len() == s.quantum_size);
    let q1 = t.quantum_at(qi);
    assert(q1 == t.quanta[qi]);
    assert(q1.len() == s.quantum_size);
    assert(q1.subrange(bq, bq + n) =~= data.take(n));

    // Untouched quanta keep their contents.
    assert(forall|j: int| j != qi ==> t.quantum_at(j) == s1.quantum_at(j));

    // The content size stays within the allocated capacity.
    assert(s.content_size <= len1 * s.quantum_size) by {
        vstd::arithmetic::mul::lemma_mul_inequality(len0, len1, s.quantum_size);
    }
    assert(offset + n <= (qi + 1) * s.quantum_size) by (nonlinear_arith)
        requires
            offset == qi * s.quantum_size + bq,
            n <= s.quantum_size - bq,
    ;
    assert((qi + 1) * s.quantum_size <= len1 * s.quantum_size) by {
        vstd::arithmetic::mul::lemma_mul_inequality(qi + 1, len1, s.quantum_size);
    }
}

} // verus!
