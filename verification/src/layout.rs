//! The layout of a record: a fixed region that holds each fixed-size field in
//! place and a four-byte offset for each variable-size field, followed by a
//! variable region that holds the variable-size payloads back to back.
//!
//! A field's size class is `Some(n)` for a fixed size of `n` bytes and `None`
//! for a variable size.

use vstd::prelude::*;
use crate::error::DecodeError;
use crate::le::{le_u32, u32_le};

verus! {

/// The number of bytes of one offset.
pub const BYTES_PER_OFFSET: usize = 4;

/// The largest length that an offset can express.
pub const MAX_LEN: usize = 0xffff_ffff;

/// The bytes that a field of class `c` takes in the fixed region.
pub open spec fn slot_len(c: Option<nat>) -> nat {
    match c {
        Some(n) => n,
        None => 4,
    }
}

/// The length of the fixed region up to field `k`.
pub open spec fn prefix_len(cs: Seq<Option<nat>>, k: int) -> nat
    decreases k,
{
    if k <= 0 {
        0
    } else {
        prefix_len(cs, k - 1) + slot_len(cs[k - 1])
    }
}

/// The length of the whole fixed region.
pub open spec fn fixed_region_len(cs: Seq<Option<nat>>) -> nat {
    prefix_len(cs, cs.len() as int)
}

/// No field has a variable size.
pub open spec fn all_fixed(cs: Seq<Option<nat>>) -> bool {
    forall|i: int| 0 <= i < cs.len() ==> (#[trigger] cs[i]).is_some()
}

/// The first `k` sequences of `ss`, joined.
pub open spec fn concat(ss: Seq<Seq<u8>>, k: int) -> Seq<u8>
    decreases k,
{
    if k <= 0 {
        Seq::empty()
    } else {
        concat(ss, k - 1) + ss[k - 1]
    }
}

/// What each field adds to the variable region: its payload if its size is
/// variable, nothing otherwise.
pub open spec fn var_parts(cs: Seq<Option<nat>>, parts: Seq<Seq<u8>>) -> Seq<Seq<u8>> {
    Seq::new(cs.len(), |i: int| if cs[i].is_none() { parts[i] } else { Seq::empty() })
}

/// The offset at which the payload of field `i` starts, were it variable: the
/// fixed region's length plus the variable payloads before it.
pub open spec fn offset_of(cs: Seq<Option<nat>>, parts: Seq<Seq<u8>>, i: int) -> nat {
    fixed_region_len(cs) + concat(var_parts(cs, parts), i).len()
}

/// What each field puts into the fixed region: its bytes if its size is fixed,
/// its offset otherwise.
pub open spec fn slots(cs: Seq<Option<nat>>, parts: Seq<Seq<u8>>) -> Seq<Seq<u8>> {
    Seq::new(
        cs.len(),
        |i: int| if cs[i].is_some() { parts[i] } else { u32_le(offset_of(cs, parts, i) as u32) },
    )
}

/// The encoding of a record whose fields have the classes `cs` and the
/// encodings `parts`: the fixed region, then the variable region.
pub open spec fn pack(cs: Seq<Option<nat>>, parts: Seq<Seq<u8>>) -> Seq<u8> {
    concat(slots(cs, parts), cs.len() as int) + concat(var_parts(cs, parts), cs.len() as int)
}

/// The offset word that `b` holds in the slot of field `i`.
pub open spec fn offset_at(cs: Seq<Option<nat>>, b: Seq<u8>, i: int) -> nat {
    le_u32(b.subrange(prefix_len(cs, i) as int, prefix_len(cs, i) as int + 4)) as nat
}

/// The offset of the last variable-size field before field `i`, if there is one.
pub open spec fn floor_before(cs: Seq<Option<nat>>, b: Seq<u8>, i: int) -> Option<nat>
    decreases i,
{
    if i <= 0 {
        None
    } else if cs[i - 1].is_none() {
        Some(offset_at(cs, b, i - 1))
    } else {
        floor_before(cs, b, i - 1)
    }
}

/// The offset of the first variable-size field from field `i` on, or the
/// buffer's length if there is none: where the payload before it ends.
pub open spec fn boundary_from(cs: Seq<Option<nat>>, b: Seq<u8>, i: int) -> nat
    decreases cs.len() - i,
{
    if i >= cs.len() || i < 0 {
        b.len()
    } else if cs[i].is_none() {
        offset_at(cs, b, i)
    } else {
        boundary_from(cs, b, i + 1)
    }
}

/// Field `i` is variable and its offset is not acceptable: the first offset
/// must be the fixed region's length, and each later one must neither lie below
/// the one before it nor point past the end of the buffer.
pub open spec fn bad_offset(cs: Seq<Option<nat>>, b: Seq<u8>, i: int) -> bool {
    cs[i].is_none() && match floor_before(cs, b, i) {
        None => offset_at(cs, b, i) != fixed_region_len(cs),
        Some(p) => offset_at(cs, b, i) < p || offset_at(cs, b, i) > b.len(),
    }
}

/// The first unacceptable offset from field `i` on, in field order.
pub open spec fn first_bad(cs: Seq<Option<nat>>, b: Seq<u8>, i: int) -> Option<nat>
    decreases cs.len() - i,
{
    if i >= cs.len() || i < 0 {
        None
    } else if bad_offset(cs, b, i) {
        Some(offset_at(cs, b, i))
    } else {
        first_bad(cs, b, i + 1)
    }
}

/// The bytes of field `i`: its slot if its size is fixed, else the range from
/// its offset to the next offset, or to the end of the buffer for the last.
pub open spec fn part(cs: Seq<Option<nat>>, b: Seq<u8>, i: int) -> Seq<u8> {
    match cs[i] {
        Some(n) => b.subrange(prefix_len(cs, i) as int, prefix_len(cs, i) as int + n as int),
        None => b.subrange(offset_at(cs, b, i) as int, boundary_from(cs, b, i + 1) as int),
    }
}

/// Splits a buffer into the bytes of each field of a record with the classes
/// `cs`, or says why the buffer cannot be such a record.
///
/// A buffer shorter than the fixed region fails with its length and that
/// region's length; so does a buffer of another length than the fixed region
/// where no field is variable. Otherwise the first unacceptable offset, in
/// field order, fails with that offset.
pub open spec fn unpack(cs: Seq<Option<nat>>, b: Seq<u8>) -> Result<Seq<Seq<u8>>, DecodeError> {
    let f = fixed_region_len(cs);
    if b.len() < f || (all_fixed(cs) && b.len() != f) {
        Err(DecodeError::InvalidByteLength { len: b.len() as usize, expected: f as usize })
    } else {
        match first_bad(cs, b, 0) {
            Some(o) => Err(DecodeError::OutOfBoundsByte { i: o as usize }),
            None => Ok(Seq::new(cs.len(), |i: int| part(cs, b, i))),
        }
    }
}

/// The joined length grows with each sequence.
pub proof fn lemma_concat_monotonic(ss: Seq<Seq<u8>>, j: int, k: int)
    requires
        j <= k,
    ensures
        concat(ss, j).len() <= concat(ss, k).len(),
    decreases k - j,
{
    if j < k {
        lemma_concat_monotonic(ss, j, k - 1);
    }
}

/// Joined sequences that are all empty are empty.
pub proof fn lemma_concat_empty(ss: Seq<Seq<u8>>, k: int)
    requires
        k <= ss.len(),
        forall|i: int| 0 <= i < k ==> (#[trigger] ss[i]).len() == 0,
    ensures
        concat(ss, k).len() == 0,
    decreases k,
{
    if k > 0 {
        lemma_concat_empty(ss, k - 1);
    }
}

/// Sequence `i` lies in the join where the ones before it end.
pub proof fn lemma_concat_slice(ss: Seq<Seq<u8>>, i: int, k: int)
    requires
        0 <= i < k <= ss.len(),
    ensures
        concat(ss, i + 1).len() == concat(ss, i).len() + ss[i].len(),
        concat(ss, i + 1).len() <= concat(ss, k).len(),
        concat(ss, k).subrange(concat(ss, i).len() as int, concat(ss, i + 1).len() as int) == ss[i],
    decreases k,
{
    let lo = concat(ss, i).len() as int;
    let hi = concat(ss, i + 1).len() as int;
    if i == k - 1 {
        assert(concat(ss, k).subrange(lo, hi) =~= ss[i]);
    } else {
        lemma_concat_slice(ss, i, k - 1);
        assert(concat(ss, k).subrange(lo, hi) =~= concat(ss, k - 1).subrange(lo, hi));
    }
}

/// Each fixed-size field's encoding has the length of its class.
pub open spec fn sized(cs: Seq<Option<nat>>, parts: Seq<Seq<u8>>) -> bool {
    &&& cs.len() == parts.len()
    &&& forall|i: int| 0 <= i < cs.len() && (#[trigger] cs[i]).is_some() ==> parts[i].len() == cs[i].unwrap()
}

/// Where each fixed-size field has the length of its class, the slots up to
/// field `k` fill the fixed region up to field `k`.
pub proof fn lemma_slots_len(cs: Seq<Option<nat>>, parts: Seq<Seq<u8>>, k: int)
    requires
        sized(cs, parts),
        0 <= k <= cs.len(),
    ensures
        concat(slots(cs, parts), k).len() == prefix_len(cs, k),
    decreases k,
{
    if k > 0 {
        lemma_slots_len(cs, parts, k - 1);
        assert(cs[k - 1].is_some() ==> parts[k - 1].len() == cs[k - 1].unwrap());
    }
}

/// The length of a record's encoding is that of its fixed region and of its
/// variable payloads; no field's encoding and no offset exceeds it.
pub proof fn lemma_pack_len(cs: Seq<Option<nat>>, parts: Seq<Seq<u8>>)
    requires
        sized(cs, parts),
    ensures
        pack(cs, parts).len() == fixed_region_len(cs) + concat(var_parts(cs, parts), cs.len() as int).len(),
        forall|i: int| 0 <= i < cs.len() ==> (#[trigger] parts[i]).len() <= pack(cs, parts).len(),
        forall|i: int| 0 <= i <= cs.len() ==> #[trigger] offset_of(cs, parts, i) <= pack(cs, parts).len(),
{
    let n = cs.len() as int;
    lemma_slots_len(cs, parts, n);
    assert forall|i: int| 0 <= i < cs.len() implies (#[trigger] parts[i]).len() <= pack(cs, parts).len() by {
        lemma_concat_slice(slots(cs, parts), i, n);
        lemma_concat_slice(var_parts(cs, parts), i, n);
    }
    assert forall|i: int| 0 <= i <= cs.len() implies #[trigger] offset_of(cs, parts, i) <= pack(
        cs,
        parts,
    ).len() by {
        lemma_concat_monotonic(var_parts(cs, parts), i, n);
    }
}

/// Fields that all have the class `c` take `k` slots of that class.
pub proof fn lemma_prefix_uniform(cs: Seq<Option<nat>>, c: Option<nat>, k: int)
    requires
        0 <= k <= cs.len(),
        forall|i: int| 0 <= i < k ==> #[trigger] cs[i] == c,
    ensures
        prefix_len(cs, k) == k * slot_len(c),
    decreases k,
{
    let w = slot_len(c) as int;
    if k > 0 {
        lemma_prefix_uniform(cs, c, k - 1);
        assert(cs[k - 1] == c);
        assert((k - 1) * w + w == k * w) by (nonlinear_arith);
    } else {
        assert(0 * w == 0) by (nonlinear_arith);
    }
}

/// The fixed region grows with each field.
pub proof fn lemma_prefix_len_monotonic(cs: Seq<Option<nat>>, j: int, k: int)
    requires
        j <= k,
    ensures
        prefix_len(cs, j) <= prefix_len(cs, k),
    decreases k - j,
{
    if j < k {
        lemma_prefix_len_monotonic(cs, j, k - 1);
    }
}

} // verus!
