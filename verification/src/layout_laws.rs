//! What holds of the layout: a record that was laid out splits back into the
//! encodings of its fields, and the first unacceptable offset is the one that
//! a split reports.

use vstd::prelude::*;
use crate::error::DecodeError;
use crate::layout::{
    all_fixed, bad_offset, boundary_from, concat, first_bad, fixed_region_len, floor_before,
    lemma_concat_empty, lemma_concat_slice, lemma_pack_len,
    lemma_prefix_len_monotonic, lemma_slots_len, offset_at, offset_of, pack, part, prefix_len,
    sized, slots, unpack, var_parts, MAX_LEN,
};
use crate::le::{lemma_u32_bytes, lemma_u32_round_trip};

verus! {

/// In a laid-out record, the slot of field `i` holds what the field put there.
pub proof fn lemma_slot_of_pack(cs: Seq<Option<nat>>, parts: Seq<Seq<u8>>, i: int)
    requires
        sized(cs, parts),
        0 <= i < cs.len(),
    ensures
        prefix_len(cs, i + 1) == prefix_len(cs, i) + slots(cs, parts)[i].len(),
        prefix_len(cs, i + 1) <= fixed_region_len(cs),
        fixed_region_len(cs) <= pack(cs, parts).len(),
        pack(cs, parts).subrange(prefix_len(cs, i) as int, prefix_len(cs, i + 1) as int) == slots(
            cs,
            parts,
        )[i],
{
    let n = cs.len() as int;
    let s = slots(cs, parts);
    let b = pack(cs, parts);
    lemma_slots_len(cs, parts, i);
    lemma_slots_len(cs, parts, i + 1);
    lemma_slots_len(cs, parts, n);
    lemma_concat_slice(s, i, n);
    lemma_prefix_len_monotonic(cs, i + 1, n);
    let lo = prefix_len(cs, i) as int;
    let hi = prefix_len(cs, i + 1) as int;
    assert(b.subrange(lo, hi) =~= concat(s, n).subrange(lo, hi));
}

/// In a laid-out record that offsets can address, the offset word of a
/// variable-size field is the offset that the layout gave it.
pub proof fn lemma_offset_of_pack(cs: Seq<Option<nat>>, parts: Seq<Seq<u8>>, i: int)
    requires
        sized(cs, parts),
        pack(cs, parts).len() <= MAX_LEN,
        0 <= i < cs.len(),
        cs[i].is_none(),
    ensures
        offset_at(cs, pack(cs, parts), i) == offset_of(cs, parts, i),
        offset_of(cs, parts, i) <= pack(cs, parts).len(),
{
    lemma_slot_of_pack(cs, parts, i);
    lemma_pack_len(cs, parts);
    assert(offset_of(cs, parts, i) <= pack(cs, parts).len());
    lemma_u32_round_trip(offset_of(cs, parts, i) as u32);
}

/// Before field `i` of a laid-out record, the last offset, if there is one,
/// does not exceed the offset due at `i`; if there is none, no variable
/// payload precedes `i`.
pub proof fn lemma_floor_of_pack(cs: Seq<Option<nat>>, parts: Seq<Seq<u8>>, i: int)
    requires
        sized(cs, parts),
        pack(cs, parts).len() <= MAX_LEN,
        0 <= i <= cs.len(),
    ensures
        match floor_before(cs, pack(cs, parts), i) {
            None => offset_of(cs, parts, i) == fixed_region_len(cs),
            Some(p) => p <= offset_of(cs, parts, i),
        },
    decreases i,
{
    if i > 0 {
        if cs[i - 1].is_none() {
            lemma_offset_of_pack(cs, parts, i - 1);
        } else {
            lemma_floor_of_pack(cs, parts, i - 1);
            assert(var_parts(cs, parts)[i - 1].len() == 0);
        }
    }
}

/// A laid-out record has no unacceptable offset.
pub proof fn lemma_no_bad_offset(cs: Seq<Option<nat>>, parts: Seq<Seq<u8>>, k: int)
    requires
        sized(cs, parts),
        pack(cs, parts).len() <= MAX_LEN,
        0 <= k <= cs.len(),
    ensures
        first_bad(cs, pack(cs, parts), k).is_none(),
    decreases cs.len() - k,
{
    if k < cs.len() {
        lemma_no_bad_offset(cs, parts, k + 1);
        if cs[k].is_none() {
            lemma_offset_of_pack(cs, parts, k);
            lemma_floor_of_pack(cs, parts, k);
        }
    }
}

/// In a laid-out record, the payload before field `i` ends where the variable
/// payloads before `i` end.
pub proof fn lemma_boundary_of_pack(cs: Seq<Option<nat>>, parts: Seq<Seq<u8>>, i: int)
    requires
        sized(cs, parts),
        pack(cs, parts).len() <= MAX_LEN,
        0 <= i <= cs.len(),
    ensures
        boundary_from(cs, pack(cs, parts), i) == offset_of(cs, parts, i),
    decreases cs.len() - i,
{
    if i < cs.len() {
        if cs[i].is_none() {
            lemma_offset_of_pack(cs, parts, i);
        } else {
            lemma_boundary_of_pack(cs, parts, i + 1);
            assert(var_parts(cs, parts)[i].len() == 0);
        }
    } else {
        lemma_pack_len(cs, parts);
    }
}

/// In a laid-out record, the bytes of field `i` are the field's encoding.
pub proof fn lemma_part_of_pack(cs: Seq<Option<nat>>, parts: Seq<Seq<u8>>, i: int)
    requires
        sized(cs, parts),
        pack(cs, parts).len() <= MAX_LEN,
        0 <= i < cs.len(),
    ensures
        part(cs, pack(cs, parts), i) == parts[i],
{
    let n = cs.len() as int;
    let b = pack(cs, parts);
    let v = var_parts(cs, parts);
    let s = slots(cs, parts);
    lemma_slot_of_pack(cs, parts, i);
    if cs[i].is_none() {
        lemma_offset_of_pack(cs, parts, i);
        lemma_boundary_of_pack(cs, parts, i + 1);
        lemma_slots_len(cs, parts, n);
        lemma_concat_slice(v, i, n);
        let f = fixed_region_len(cs) as int;
        let lo = concat(v, i).len() as int;
        let hi = concat(v, i + 1).len() as int;
        assert(concat(s, n).len() == f);
        assert(b.subrange(f + lo, f + hi) =~= concat(v, n).subrange(lo, hi));
    }
}

/// Splitting a laid-out record gives back the encodings of its fields.
pub proof fn lemma_unpack_pack(cs: Seq<Option<nat>>, parts: Seq<Seq<u8>>)
    requires
        sized(cs, parts),
        pack(cs, parts).len() <= MAX_LEN,
    ensures
        unpack(cs, pack(cs, parts)) == Ok::<Seq<Seq<u8>>, DecodeError>(parts),
{
    let n = cs.len() as int;
    let b = pack(cs, parts);
    lemma_pack_len(cs, parts);
    if all_fixed(cs) {
        lemma_concat_empty(var_parts(cs, parts), n);
    }
    lemma_no_bad_offset(cs, parts, 0);
    assert forall|i: int| 0 <= i < n implies part(cs, b, i) == #[trigger] parts[i] by {
        lemma_part_of_pack(cs, parts, i);
    }
    assert(Seq::new(cs.len(), |i: int| part(cs, b, i)) =~= parts);
}

/// Where no offset from field `k` on is reported, none of them is unacceptable.
pub proof fn lemma_none_bad(cs: Seq<Option<nat>>, b: Seq<u8>, k: int, i: int)
    requires
        0 <= k <= i < cs.len(),
        first_bad(cs, b, k).is_none(),
    ensures
        !bad_offset(cs, b, i),
    decreases i - k,
{
    if k < i {
        lemma_none_bad(cs, b, k + 1, i);
    }
}

/// Where there is no offset before field `k`, the fields before it are fixed.
pub proof fn lemma_fixed_before(cs: Seq<Option<nat>>, b: Seq<u8>, k: int)
    requires
        0 <= k <= cs.len(),
        floor_before(cs, b, k).is_none(),
    ensures
        forall|j: int| 0 <= j < k ==> (#[trigger] cs[j]).is_some(),
    decreases k,
{
    if k > 0 {
        lemma_fixed_before(cs, b, k - 1);
    }
}

/// In a buffer that splits, the last offset before a field lies between the
/// fixed region's length and the buffer's.
pub proof fn lemma_floor_in_range(cs: Seq<Option<nat>>, b: Seq<u8>, i: int)
    requires
        unpack(cs, b).is_ok(),
        0 <= i <= cs.len(),
    ensures
        floor_before(cs, b, i).is_some() ==> fixed_region_len(cs) <= floor_before(cs, b, i).unwrap()
            <= b.len(),
    decreases i,
{
    if i > 0 {
        lemma_floor_in_range(cs, b, i - 1);
        lemma_none_bad(cs, b, 0, i - 1);
    }
}

/// In a buffer that splits, the payload before field `i` ends between the
/// last offset before `i` and the end of the buffer; where there is no offset
/// before `i`, it ends where the fixed region does.
pub proof fn lemma_boundary_in_range(cs: Seq<Option<nat>>, b: Seq<u8>, i: int)
    requires
        unpack(cs, b).is_ok(),
        0 <= i <= cs.len(),
    ensures
        boundary_from(cs, b, i) <= b.len(),
        match floor_before(cs, b, i) {
            Some(p) => p <= boundary_from(cs, b, i),
            None => boundary_from(cs, b, i) == fixed_region_len(cs),
        },
    decreases cs.len() - i,
{
    lemma_floor_in_range(cs, b, i);
    if i < cs.len() {
        lemma_none_bad(cs, b, 0, i);
        if cs[i].is_some() {
            lemma_boundary_in_range(cs, b, i + 1);
        }
    } else {
        if floor_before(cs, b, i).is_none() {
            lemma_fixed_before(cs, b, i);
        }
    }
}

/// In a buffer that splits, the variable payloads before field `i` are the
/// bytes from the end of the fixed region to where the payload before `i` ends.
pub proof fn lemma_payloads_of_unpack(cs: Seq<Option<nat>>, b: Seq<u8>, i: int)
    requires
        unpack(cs, b).is_ok(),
        0 <= i <= cs.len(),
    ensures
        fixed_region_len(cs) <= boundary_from(cs, b, i) <= b.len(),
        concat(var_parts(cs, unpack(cs, b).unwrap()), i) == b.subrange(
            fixed_region_len(cs) as int,
            boundary_from(cs, b, i) as int,
        ),
    decreases i,
{
    let parts = unpack(cs, b).unwrap();
    let v = var_parts(cs, parts);
    let f = fixed_region_len(cs) as int;
    lemma_boundary_in_range(cs, b, i);
    lemma_floor_in_range(cs, b, i);
    if i == 0 {
        assert(concat(v, 0) =~= b.subrange(f, f));
    } else {
        lemma_payloads_of_unpack(cs, b, i - 1);
        lemma_boundary_in_range(cs, b, i - 1);
        if cs[i - 1].is_none() {
            let lo = offset_at(cs, b, i - 1) as int;
            let hi = boundary_from(cs, b, i) as int;
            assert(v[i - 1] == b.subrange(lo, hi));
            assert(concat(v, i) =~= b.subrange(f, hi));
        } else {
            assert(concat(v, i) =~= concat(v, i - 1));
        }
    }
}

/// In a buffer that splits, the slots before field `i` are the fixed region
/// up to that field.
pub proof fn lemma_slots_of_unpack(cs: Seq<Option<nat>>, b: Seq<u8>, i: int)
    requires
        unpack(cs, b).is_ok(),
        0 <= i <= cs.len(),
    ensures
        prefix_len(cs, i) <= b.len(),
        concat(slots(cs, unpack(cs, b).unwrap()), i) == b.subrange(0, prefix_len(cs, i) as int),
    decreases i,
{
    let parts = unpack(cs, b).unwrap();
    let s = slots(cs, parts);
    lemma_prefix_len_monotonic(cs, i, cs.len() as int);
    if i == 0 {
        assert(concat(s, 0) =~= b.subrange(0, 0));
    } else {
        lemma_slots_of_unpack(cs, b, i - 1);
        let lo = prefix_len(cs, i - 1) as int;
        let hi = prefix_len(cs, i) as int;
        if cs[i - 1].is_none() {
            lemma_payloads_of_unpack(cs, b, i - 1);
            assert(offset_of(cs, parts, i - 1) == offset_at(cs, b, i - 1));
            lemma_u32_bytes(b.subrange(lo, hi));
        }
        assert(s[i - 1] == b.subrange(lo, hi));
        assert(concat(s, i) =~= b.subrange(0, hi));
    }
}

/// Laying out what a buffer splits into gives back the buffer.
pub proof fn lemma_pack_unpack(cs: Seq<Option<nat>>, b: Seq<u8>)
    requires
        unpack(cs, b).is_ok(),
    ensures
        pack(cs, unpack(cs, b).unwrap()) == b,
{
    let n = cs.len() as int;
    lemma_slots_of_unpack(cs, b, n);
    lemma_payloads_of_unpack(cs, b, n);
    assert(pack(cs, unpack(cs, b).unwrap()) =~= b);
}

/// The first unacceptable offset, in field order, is the one reported.
pub proof fn lemma_first_bad(cs: Seq<Option<nat>>, b: Seq<u8>, k: int, from: int)
    requires
        0 <= from <= k < cs.len(),
        forall|j: int| from <= j < k ==> !bad_offset(cs, b, j),
        bad_offset(cs, b, k),
    ensures
        first_bad(cs, b, from) == Some(offset_at(cs, b, k)),
    decreases k - from,
{
    if from < k {
        lemma_first_bad(cs, b, k, from + 1);
    }
}

/// Before the first variable-size field there is no offset.
pub proof fn lemma_no_floor(cs: Seq<Option<nat>>, b: Seq<u8>, k: int)
    requires
        0 <= k <= cs.len(),
        forall|j: int| 0 <= j < k ==> (#[trigger] cs[j]).is_some(),
    ensures
        floor_before(cs, b, k).is_none(),
    decreases k,
{
    if k > 0 {
        lemma_no_floor(cs, b, k - 1);
    }
}

/// Behind fields of fixed size, the last offset is the one before them.
pub proof fn lemma_floor_across_fixed(cs: Seq<Option<nat>>, b: Seq<u8>, j: int, k: int)
    requires
        0 <= j < k <= cs.len(),
        cs[j].is_none(),
        forall|m: int| j < m < k ==> (#[trigger] cs[m]).is_some(),
    ensures
        floor_before(cs, b, k) == Some(offset_at(cs, b, j)),
    decreases k,
{
    if j < k - 1 {
        lemma_floor_across_fixed(cs, b, j, k - 1);
    }
}

} // verus!
