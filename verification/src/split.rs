//! Splitting a buffer into the byte ranges of a record's fields.

use vstd::prelude::*;
use crate::error::DecodeError;
use crate::layout::{
    all_fixed, bad_offset, boundary_from, first_bad, fixed_region_len, floor_before,
    lemma_prefix_len_monotonic, offset_at, part, prefix_len, unpack, MAX_LEN,
};
use crate::le::read_u32;
use crate::schema::{class_lens, SizeClass};

verus! {

/// The ranges are those of the fields of the record `b` with the classes `cs`.
pub open spec fn ranges_of(cs: Seq<Option<nat>>, b: Seq<u8>, ranges: Seq<(usize, usize)>) -> bool {
    &&& ranges.len() == cs.len()
    &&& forall|j: int|
        0 <= j < cs.len() ==> {
            &&& (#[trigger] ranges[j]).0 <= ranges[j].1 <= b.len()
            &&& b.subrange(ranges[j].0 as int, ranges[j].1 as int) == part(cs, b, j)
        }
}

/// Validates the layout of a record with the given field classes and returns
/// the byte range of each field, start and end, in field order.
pub fn split(classes: &Vec<SizeClass>, bytes: &[u8]) -> (r: Result<Vec<(usize, usize)>, DecodeError>)
    requires
        fixed_region_len(class_lens(classes@)) <= MAX_LEN,
    ensures
        match r {
            Ok(ranges) => unpack(class_lens(classes@), bytes@).is_ok() && ranges_of(
                class_lens(classes@),
                bytes@,
                ranges@,
            ),
            Err(e) => unpack(class_lens(classes@), bytes@) == Err::<Seq<Seq<u8>>, DecodeError>(e),
        },
{
    let n = classes.len();
    let len = bytes.len();
    let ghost cs = class_lens(classes@);
    let ghost b = bytes@;
    let mut f: usize = 0;
    let mut fixed = true;
    let mut i: usize = 0;
    while i < n
        invariant
            0 <= i <= n,
            n == classes@.len(),
            cs == class_lens(classes@),
            fixed_region_len(cs) <= MAX_LEN,
            f == prefix_len(cs, i as int),
            fixed <==> forall|j: int| 0 <= j < i ==> (#[trigger] cs[j]).is_some(),
        decreases n - i,
    {
        proof {
            lemma_prefix_len_monotonic(cs, i as int + 1, cs.len() as int);
        }
        match classes[i] {
            SizeClass::Fixed(l) => {
                f = f + l;
            },
            SizeClass::Variable => {
                f = f + 4;
                fixed = false;
            },
        }
        i = i + 1;
    }
    assert(fixed == all_fixed(cs));
    if len < f || (fixed && len != f) {
        return Err(DecodeError::InvalidByteLength { len, expected: f });
    }
    let mut starts: Vec<usize> = Vec::new();
    let mut pos: usize = 0;
    let mut prev: Option<usize> = None;
    let ghost mut last: usize = f;
    i = 0;
    while i < n
        invariant
            0 <= i <= n,
            n == classes@.len(),
            cs == class_lens(classes@),
            b == bytes@,
            len == b.len(),
            f == fixed_region_len(cs),
            f <= len,
            pos == prefix_len(cs, i as int),
            first_bad(cs, b, 0) == first_bad(cs, b, i as int),
            match prev {
                None => floor_before(cs, b, i as int).is_none(),
                Some(p) => floor_before(cs, b, i as int) == Some(p as nat) && f <= p <= len,
            },
            starts@.len() == i,
            forall|j: int| 0 <= j < i && cs[j].is_none() ==> (#[trigger] starts@[j]) == offset_at(cs, b, j),
            last <= len,
            prev.is_some() ==> prev.unwrap() == last,
            prev.is_none() ==> last == f,
            forall|j: int| 0 <= j < i && cs[j].is_none() ==> (#[trigger] starts@[j]) <= last,
            forall|j: int| 0 <= j < i && cs[j].is_some() ==> (#[trigger] starts@[j]) == prefix_len(cs, j),
            forall|j: int, k: int|
                0 <= j <= k < i && cs[j].is_none() && cs[k].is_none() ==> (#[trigger] starts@[j])
                    <= (#[trigger] starts@[k]),
        decreases n - i,
    {
        proof {
            lemma_prefix_len_monotonic(cs, i as int + 1, cs.len() as int);
        }
        match classes[i] {
            SizeClass::Fixed(l) => {
                starts.push(pos);
                pos = pos + l;
            },
            SizeClass::Variable => {
                let o = read_u32(bytes, pos) as usize;
                assert(o == offset_at(cs, b, i as int));
                let bad = match prev {
                    None => o != f,
                    Some(p) => o < p || o > len,
                };
                assert(bad == bad_offset(cs, b, i as int));
                if bad {
                    return Err(DecodeError::OutOfBoundsByte { i: o });
                }
                starts.push(o);
                prev = Some(o);
                proof {
                    last = o;
                }
                pos = pos + 4;
            },
        }
        i = i + 1;
    }
    let mut ranges: Vec<(usize, usize)> = Vec::new();
    i = 0;
    while i < n
        invariant
            0 <= i <= n,
            ranges@.len() == i,
        decreases n - i,
    {
        ranges.push((0usize, 0usize));
        i = i + 1;
    }
    let mut next: usize = len;
    let mut k: usize = n;
    while k > 0
        invariant
            0 <= k <= n,
            n == classes@.len(),
            cs == class_lens(classes@),
            b == bytes@,
            len == b.len(),
            f == fixed_region_len(cs),
            f <= len,
            starts@.len() == n,
            ranges@.len() == n,
            next == boundary_from(cs, b, k as int),
            next <= len,
            forall|j: int| 0 <= j < n && cs[j].is_none() ==> (#[trigger] starts@[j]) == offset_at(cs, b, j),
            forall|j: int| 0 <= j < n && cs[j].is_some() ==> (#[trigger] starts@[j]) == prefix_len(cs, j),
            forall|j: int, m: int|
                0 <= j <= m < n && cs[j].is_none() && cs[m].is_none() ==> (#[trigger] starts@[j])
                    <= (#[trigger] starts@[m]),
            forall|j: int| 0 <= j < k && cs[j].is_none() ==> (#[trigger] starts@[j]) <= next,
            forall|j: int|
                k <= j < n ==> {
                    &&& (#[trigger] ranges@[j]).0 <= ranges@[j].1 <= len
                    &&& b.subrange(ranges@[j].0 as int, ranges@[j].1 as int) == part(cs, b, j)
                },
        decreases k,
    {
        k = k - 1;
        proof {
            lemma_prefix_len_monotonic(cs, k as int + 1, cs.len() as int);
        }
        let start = starts[k];
        match classes[k] {
            SizeClass::Fixed(l) => {
                ranges.set(k, (start, start + l));
            },
            SizeClass::Variable => {
                ranges.set(k, (start, next));
                next = start;
            },
        }
    }
    Ok(ranges)
}

} // verus!
