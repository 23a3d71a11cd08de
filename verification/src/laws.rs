//! What holds of the codec as a whole.

use vstd::prelude::*;
use crate::codec::{
    chunks, collect, conforms, decode_each, decode_fields, decoding, encoding, encodings,
    first_error, length_error, repeat, variable_classes,
};
use crate::decode::decode;
use crate::encode::{encode, lemma_fields_sized};
use crate::error::DecodeError;
use crate::layout::{
    all_fixed, bad_offset, concat, first_bad, fixed_region_len, part, lemma_concat_empty, lemma_pack_len,
    lemma_prefix_uniform, lemma_slots_len, offset_at, pack, slots, unpack, var_parts, MAX_LEN,
};
use crate::layout_laws::{
    lemma_pack_unpack, lemma_first_bad, lemma_floor_across_fixed, lemma_no_floor, lemma_offset_of_pack,
    lemma_slot_of_pack, lemma_unpack_pack,
};
use crate::le::{
    le_u32, lemma_u16_bytes, lemma_u16_round_trip, lemma_u32_bytes, lemma_u32_round_trip,
    lemma_u64_bytes, lemma_u64_round_trip,
};
use crate::schema::{field_classes, Schema};
use crate::value::{Value, ValueView};

verus! {

/// Results that are all values have no first error.
pub proof fn lemma_no_error(rs: Seq<Result<ValueView, DecodeError>>, i: int)
    requires
        0 <= i,
        forall|j: int| i <= j < rs.len() ==> (#[trigger] rs[j]).is_ok(),
    ensures
        first_error(rs, i).is_none(),
    decreases rs.len() - i,
{
    if i < rs.len() {
        lemma_no_error(rs, i + 1);
    }
}

/// Results that are the values `vals`, one by one, collect to `vals`.
pub proof fn lemma_collect_values(rs: Seq<Result<ValueView, DecodeError>>, vals: Seq<ValueView>)
    requires
        rs.len() == vals.len(),
        forall|j: int| 0 <= j < rs.len() ==> #[trigger] rs[j] == Ok::<ValueView, DecodeError>(vals[j]),
    ensures
        collect(rs) == Ok::<Seq<ValueView>, DecodeError>(vals),
{
    lemma_no_error(rs, 0);
    assert(Seq::new(rs.len(), |i: int| rs[i]->Ok_0) =~= vals);
}

/// No field's encoding is longer than the record that holds it.
pub proof fn lemma_fields_bounded(ss: Seq<Schema>, vals: Seq<ValueView>)
    requires
        ss.len() == vals.len(),
        forall|i: int| 0 <= i < vals.len() ==> conforms(ss[i], #[trigger] vals[i]),
    ensures
        forall|i: int|
            0 <= i < vals.len() ==> (#[trigger] encoding(ss[i], vals[i])).len() <= pack(
                field_classes(ss),
                encodings(ss, vals),
            ).len(),
{
    let cs = field_classes(ss);
    let parts = encodings(ss, vals);
    lemma_fields_sized(ss, vals);
    lemma_pack_len(cs, parts);
    assert forall|i: int| 0 <= i < vals.len() implies (#[trigger] encoding(ss[i], vals[i])).len()
        <= pack(cs, parts).len() by {
        assert(parts[i] == encoding(ss[i], vals[i]));
    }
}

/// A container decodes from its encoding to itself where each field does.
pub proof fn lemma_container_round_trip(fields: Vec<Schema>, vals: Seq<ValueView>)
    requires
        conforms(Schema::Container(fields), ValueView::Container(vals)),
        encoding(Schema::Container(fields), ValueView::Container(vals)).len() <= MAX_LEN,
        forall|i: int|
            0 <= i < vals.len() ==> decoding(fields@[i], #[trigger] encoding(fields@[i], vals[i]))
                == Ok::<ValueView, DecodeError>(vals[i]),
    ensures
        decoding(
            Schema::Container(fields),
            encoding(Schema::Container(fields), ValueView::Container(vals)),
        ) == Ok::<ValueView, DecodeError>(ValueView::Container(vals)),
{
    let cs = field_classes(fields@);
    let parts = encodings(fields@, vals);
    lemma_fields_sized(fields@, vals);
    lemma_unpack_pack(cs, parts);
    let rs = decode_fields(fields@, parts);
    assert forall|i: int| 0 <= i < rs.len() implies #[trigger] rs[i] == Ok::<ValueView, DecodeError>(
        vals[i],
    ) by {
        assert(parts[i] == encoding(fields@[i], vals[i]));
    }
    lemma_collect_values(rs, vals);
}

/// A list of fixed-size elements decodes from its encoding to itself where
/// each element does.
pub proof fn lemma_fixed_list_round_trip(elem: Schema, items: Seq<ValueView>, l: nat)
    requires
        elem.size() == Some(l),
        l > 0,
        conforms(Schema::List(Box::new(elem)), ValueView::List(items)),
        forall|i: int|
            0 <= i < items.len() ==> decoding(elem, #[trigger] encoding(elem, items[i])) == Ok::<
                ValueView,
                DecodeError,
            >(items[i]),
    ensures
        decoding(
            Schema::List(Box::new(elem)),
            encoding(Schema::List(Box::new(elem)), ValueView::List(items)),
        ) == Ok::<ValueView, DecodeError>(ValueView::List(items)),
{
    let n = items.len() as int;
    let ss = repeat(elem, items.len());
    let cs = field_classes(ss);
    let parts = encodings(ss, items);
    let b = pack(cs, parts);
    assert(b == encoding(Schema::List(Box::new(elem)), ValueView::List(items)));
    lemma_fields_sized(ss, items);
    lemma_concat_empty(var_parts(cs, parts), n);
    lemma_slots_len(cs, parts, n);
    lemma_prefix_uniform(cs, Some(l), n);
    assert(b.len() == n * l);
    assert(b.len() % l == 0 && b.len() / l == n) by (nonlinear_arith)
        requires
            b.len() == n * l,
            l > 0,
            n >= 0,
    ;
    let ch = chunks(b, l);
    let rs = decode_each(elem, ch);
    assert forall|i: int| 0 <= i < n implies #[trigger] rs[i] == Ok::<ValueView, DecodeError>(
        items[i],
    ) by {
        lemma_slot_of_pack(cs, parts, i);
        lemma_prefix_uniform(cs, Some(l), i);
        lemma_prefix_uniform(cs, Some(l), i + 1);
        assert((i + 1) * l == i * l + l) by (nonlinear_arith);
        assert(slots(cs, parts)[i] == parts[i]);
        assert(ch[i] == parts[i]);
        assert(parts[i] == encoding(elem, items[i]));
    }
    lemma_collect_values(rs, items);
}

/// A list of variable-size elements decodes from its encoding to itself where
/// each element does.
pub proof fn lemma_variable_list_round_trip(elem: Schema, items: Seq<ValueView>)
    requires
        elem.size().is_none(),
        conforms(Schema::List(Box::new(elem)), ValueView::List(items)),
        encoding(Schema::List(Box::new(elem)), ValueView::List(items)).len() <= MAX_LEN,
        forall|i: int|
            0 <= i < items.len() ==> decoding(elem, #[trigger] encoding(elem, items[i])) == Ok::<
                ValueView,
                DecodeError,
            >(items[i]),
    ensures
        decoding(
            Schema::List(Box::new(elem)),
            encoding(Schema::List(Box::new(elem)), ValueView::List(items)),
        ) == Ok::<ValueView, DecodeError>(ValueView::List(items)),
{
    let n = items.len() as int;
    let ss = repeat(elem, items.len());
    let cs = field_classes(ss);
    let parts = encodings(ss, items);
    let b = pack(cs, parts);
    assert(b == encoding(Schema::List(Box::new(elem)), ValueView::List(items)));
    lemma_fields_sized(ss, items);
    lemma_pack_len(cs, parts);
    if n == 0 {
        assert(b.len() == 0);
        assert(items =~= Seq::<ValueView>::empty());
    } else {
        lemma_prefix_uniform(cs, None, n);
        lemma_offset_of_pack(cs, parts, 0);
        assert(fixed_region_len(cs) == 4 * n);
        assert(concat(var_parts(cs, parts), 0).len() == 0);
        assert(le_u32(b) == le_u32(b.subrange(0, 4)));
        assert(le_u32(b) == 4 * n);
        assert(variable_classes((le_u32(b) / 4) as nat) =~= cs);
        lemma_unpack_pack(cs, parts);
        let rs = decode_each(elem, parts);
        assert forall|i: int| 0 <= i < n implies #[trigger] rs[i] == Ok::<ValueView, DecodeError>(
            items[i],
        ) by {
            assert(parts[i] == encoding(elem, items[i]));
        }
        lemma_collect_values(rs, items);
    }
}

/// Round trip: a value that conforms to a well-formed schema, and whose
/// encoding is short enough for offsets of four bytes, decodes from its
/// encoding to itself.
pub proof fn law_round_trip(s: Schema, v: ValueView)
    requires
        s.wf(),
        conforms(s, v),
        encoding(s, v).len() <= MAX_LEN,
    ensures
        decoding(s, encoding(s, v)) == Ok::<ValueView, DecodeError>(v),
    decreases v,
{
    let b = encoding(s, v);
    match (s, v) {
        (Schema::U16, ValueView::U16(x)) => {
            lemma_u16_round_trip(x);
        },
        (Schema::U32, ValueView::U32(x)) => {
            lemma_u32_round_trip(x);
        },
        (Schema::U64, ValueView::U64(x)) => {
            lemma_u64_round_trip(x);
        },
        (Schema::Optional(inner), ValueView::Optional(o)) => {
            match o {
                Some(x) => {
                    lemma_u32_round_trip(1);
                    assert(b.subrange(4, b.len() as int) =~= encoding(*inner, *x));
                    law_round_trip(*inner, *x);
                },
                None => {
                    lemma_u32_round_trip(0);
                },
            }
        },
        (Schema::List(elem), ValueView::List(items)) => {
            let ss = repeat(*elem, items.len());
            lemma_fields_bounded(ss, items);
            assert forall|i: int| 0 <= i < items.len() implies decoding(
                *elem,
                #[trigger] encoding(*elem, items[i]),
            ) == Ok::<ValueView, DecodeError>(items[i]) by {
                assert(conforms(*elem, items[i]));
                assert(encoding(ss[i], items[i]).len() <= b.len());
                law_round_trip(*elem, items[i]);
            }
            match elem.size() {
                Some(l) => {
                    lemma_fixed_list_round_trip(*elem, items, l);
                },
                None => {
                    lemma_variable_list_round_trip(*elem, items);
                },
            }
        },
        (Schema::Container(fields), ValueView::Container(vals)) => {
            lemma_fields_bounded(fields@, vals);
            assert forall|i: int| 0 <= i < vals.len() implies decoding(
                fields@[i],
                #[trigger] encoding(fields@[i], vals[i]),
            ) == Ok::<ValueView, DecodeError>(vals[i]) by {
                assert(conforms(fields@[i], vals[i]));
                assert(encoding(fields@[i], vals[i]).len() <= b.len());
                law_round_trip(fields@[i], vals[i]);
            }
            lemma_container_round_trip(fields, vals);
        },
        _ => {},
    }
}

/// Results without a first error are all values.
pub proof fn lemma_all_values(rs: Seq<Result<ValueView, DecodeError>>, i: int)
    requires
        0 <= i,
        first_error(rs, i).is_none(),
    ensures
        forall|j: int| i <= j < rs.len() ==> (#[trigger] rs[j]).is_ok(),
    decreases rs.len() - i,
{
    if i < rs.len() {
        lemma_all_values(rs, i + 1);
    }
}

/// What decodes under a schema has the schema's shape.
pub proof fn law_decoded_conforms(s: Schema, b: Seq<u8>)
    requires
        decoding(s, b).is_ok(),
    ensures
        conforms(s, decoding(s, b)->Ok_0),
    decreases s,
{
    match s {
        Schema::Optional(inner) => {
            if le_u32(b) == 1 {
                law_decoded_conforms(*inner, b.subrange(4, b.len() as int));
            }
        },
        Schema::List(elem) => {
            let parts = match elem.size() {
                Some(l) => chunks(b, l),
                None => if b.len() == 0 {
                    Seq::empty()
                } else {
                    unpack(variable_classes((le_u32(b) / 4) as nat), b)->Ok_0
                },
            };
            if b.len() != 0 || elem.size().is_some() {
                let rs = decode_each(*elem, parts);
                lemma_all_values(rs, 0);
                let items = collect(rs)->Ok_0;
                assert forall|i: int| 0 <= i < items.len() implies conforms(*elem, #[trigger] items[i]) by {
                    assert(rs[i].is_ok());
                    law_decoded_conforms(*elem, parts[i]);
                }
            }
        },
        Schema::Container(fields) => {
            let parts = unpack(field_classes(fields@), b)->Ok_0;
            let rs = decode_fields(fields@, parts);
            lemma_all_values(rs, 0);
            let vals = collect(rs)->Ok_0;
            assert forall|i: int| 0 <= i < vals.len() implies conforms(fields@[i], #[trigger] vals[i]) by {
                assert(rs[i].is_ok());
                law_decoded_conforms(fields@[i], parts[i]);
            }
        },
        _ => {},
    }
}

/// Where every field is fixed, no offset is unacceptable.
pub proof fn lemma_fixed_has_no_bad(cs: Seq<Option<nat>>, b: Seq<u8>, k: int)
    requires
        0 <= k,
        all_fixed(cs),
    ensures
        first_bad(cs, b, k).is_none(),
    decreases cs.len() - k,
{
    if k < cs.len() {
        assert(cs[k].is_some());
        lemma_fixed_has_no_bad(cs, b, k + 1);
    }
}

/// What decoded values encode to, where each piece is the encoding of what
/// it decodes to: the pieces.
pub proof fn lemma_encodings_of_decoded(
    ss: Seq<Schema>,
    parts: Seq<Seq<u8>>,
    rs: Seq<Result<ValueView, DecodeError>>,
)
    requires
        ss.len() == parts.len(),
        rs.len() == parts.len(),
        collect(rs).is_ok(),
        forall|i: int|
            0 <= i < rs.len() ==> (#[trigger] rs[i]).is_ok() ==> encoding(ss[i], rs[i]->Ok_0)
                == parts[i],
    ensures
        collect(rs).unwrap().len() == parts.len(),
        encodings(ss, collect(rs).unwrap()) == parts,
{
    lemma_all_values(rs, 0);
    assert(encodings(ss, collect(rs).unwrap()) =~= parts);
}

/// Canonical form: a buffer that decodes is the encoding of what it decodes
/// to, so no two buffers decode to one value under one schema.
pub proof fn law_canonical(s: Schema, b: Seq<u8>)
    requires
        decoding(s, b).is_ok(),
    ensures
        encoding(s, decoding(s, b)->Ok_0) == b,
    decreases s,
{
    let v = decoding(s, b)->Ok_0;
    match s {
        Schema::Bool => {
            assert(encoding(s, v) =~= b);
        },
        Schema::U8 => {
            assert(encoding(s, v) =~= b);
        },
        Schema::U16 => {
            lemma_u16_bytes(b);
        },
        Schema::U32 => {
            lemma_u32_bytes(b);
        },
        Schema::U64 => {
            lemma_u64_bytes(b);
        },
        Schema::Bytes(_) => {},
        Schema::Optional(inner) => {
            let head = b.subrange(0, 4);
            lemma_u32_bytes(head);
            assert(le_u32(head) == le_u32(b));
            if le_u32(b) == 1 {
                let rest = b.subrange(4, b.len() as int);
                law_canonical(*inner, rest);
                assert(head + rest =~= b);
            } else {
                assert(head =~= b);
            }
        },
        Schema::List(elem) => {
            match elem.size() {
                Some(l) => {
                    let n = b.len() / l;
                    let ss = repeat(*elem, n);
                    let cs = field_classes(ss);
                    let parts = chunks(b, l);
                    let rs = decode_each(*elem, parts);
                    assert(n * l == b.len()) by (nonlinear_arith)
                        requires
                            n == b.len() / l,
                            b.len() % l == 0,
                            l > 0,
                    ;
                    lemma_prefix_uniform(cs, Some(l), n as int);
                    lemma_fixed_has_no_bad(cs, b, 0);
                    assert forall|i: int| 0 <= i < n implies #[trigger] parts[i] == part(cs, b, i) by {
                        lemma_prefix_uniform(cs, Some(l), i);
                    }
                    assert(unpack(cs, b).unwrap() =~= parts);
                    assert forall|i: int| 0 <= i < rs.len() implies (#[trigger] rs[i]).is_ok()
                        ==> encoding(ss[i], rs[i]->Ok_0) == parts[i] by {
                        if rs[i].is_ok() {
                            law_canonical(*elem, parts[i]);
                        }
                    }
                    lemma_encodings_of_decoded(ss, parts, rs);
                    lemma_pack_unpack(cs, b);
                },
                None => {
                    if b.len() == 0 {
                        assert(encoding(s, v) =~= b);
                    } else {
                        let n = (le_u32(b) / 4) as nat;
                        let ss = repeat(*elem, n);
                        let cs = field_classes(ss);
                        assert(cs =~= variable_classes(n));
                        let parts = unpack(cs, b).unwrap();
                        let rs = decode_each(*elem, parts);
                        assert forall|i: int| 0 <= i < rs.len() implies (#[trigger] rs[i]).is_ok()
                            ==> encoding(ss[i], rs[i]->Ok_0) == parts[i] by {
                            if rs[i].is_ok() {
                                law_canonical(*elem, parts[i]);
                            }
                        }
                        lemma_encodings_of_decoded(ss, parts, rs);
                        lemma_pack_unpack(cs, b);
                    }
                },
            }
        },
        Schema::Container(fields) => {
            let cs = field_classes(fields@);
            let parts = unpack(cs, b).unwrap();
            let rs = decode_fields(fields@, parts);
            assert forall|i: int| 0 <= i < rs.len() implies (#[trigger] rs[i]).is_ok() ==> encoding(
                fields@[i],
                rs[i]->Ok_0,
            ) == parts[i] by {
                if rs[i].is_ok() {
                    law_canonical(fields@[i], parts[i]);
                }
            }
            lemma_encodings_of_decoded(fields@, parts, rs);
            lemma_pack_unpack(cs, b);
        },
    }
}

/// Length: the encoding of a conforming container is as long as its fixed
/// region and its variable payloads together.
pub proof fn law_container_length(fields: Vec<Schema>, vals: Seq<ValueView>)
    requires
        conforms(Schema::Container(fields), ValueView::Container(vals)),
    ensures
        encoding(Schema::Container(fields), ValueView::Container(vals)).len() == fixed_region_len(
            field_classes(fields@),
        ) + concat(
            var_parts(field_classes(fields@), encodings(fields@, vals)),
            fields@.len() as int,
        ).len(),
{
    lemma_fields_sized(fields@, vals);
    lemma_pack_len(field_classes(fields@), encodings(fields@, vals));
}

/// Round trip, in executable form: encoding a value and decoding what comes
/// out gives a value with the same view.
pub fn round_trip(schema: &Schema, value: &Value) -> (r: Result<Value, DecodeError>)
    requires
        schema.wf(),
        conforms(*schema, value@),
        encoding(*schema, value@).len() <= MAX_LEN,
    ensures
        r is Ok,
        r->Ok_0@ == value@,
{
    let bytes = encode(schema, value);
    proof {
        law_round_trip(*schema, value@);
    }
    decode(schema, bytes.as_slice())
}

/// Determinism: the encoding is a function of the schema and the value, so
/// equal values have byte-identical encodings.
pub proof fn law_deterministic(s: Schema, v: ValueView, w: ValueView)
    requires
        v == w,
    ensures
        encoding(s, v) == encoding(s, w),
{
}

/// Fixed-length exactness: under a type of fixed size, a buffer of any other
/// length fails with a length mismatch that reports the buffer's length and
/// the type's.
pub proof fn law_fixed_length_exact(s: Schema, b: Seq<u8>)
    requires
        s.size().is_some(),
        b.len() != s.size().unwrap(),
    ensures
        decoding(s, b) == Err::<ValueView, DecodeError>(length_error(b.len(), s.size().unwrap())),
{
}

/// First offset: in a container whose first variable-size field is `k`, a
/// buffer that holds the fixed region and whose first offset is not that
/// region's length fails with a bounds error that carries the offset.
pub proof fn law_first_offset(fields: Vec<Schema>, b: Seq<u8>, k: int)
    requires
        0 <= k < fields@.len(),
        field_classes(fields@)[k].is_none(),
        forall|j: int| 0 <= j < k ==> (#[trigger] field_classes(fields@)[j]).is_some(),
        b.len() >= fixed_region_len(field_classes(fields@)),
        offset_at(field_classes(fields@), b, k) != fixed_region_len(field_classes(fields@)),
    ensures
        decoding(Schema::Container(fields), b) == Err::<ValueView, DecodeError>(
            DecodeError::OutOfBoundsByte { i: offset_at(field_classes(fields@), b, k) as usize },
        ),
{
    let cs = field_classes(fields@);
    lemma_no_floor(cs, b, k);
    assert forall|j: int| 0 <= j < k implies !bad_offset(cs, b, j) by {
        assert(cs[j].is_some());
    }
    lemma_first_bad(cs, b, k, 0);
}

/// Monotonic offsets: where `j` and `k` are variable-size fields of a
/// container with none between them, the offsets before `k` are acceptable,
/// and the offset of `k` lies below that of `j`, decoding fails with a bounds
/// error that carries the offset of `k`.
pub proof fn law_decreasing_offset(fields: Vec<Schema>, b: Seq<u8>, j: int, k: int)
    requires
        0 <= j < k < fields@.len(),
        field_classes(fields@)[j].is_none(),
        field_classes(fields@)[k].is_none(),
        forall|m: int| j < m < k ==> (#[trigger] field_classes(fields@)[m]).is_some(),
        b.len() >= fixed_region_len(field_classes(fields@)),
        forall|m: int| 0 <= m < k ==> !bad_offset(field_classes(fields@), b, m),
        offset_at(field_classes(fields@), b, k) < offset_at(field_classes(fields@), b, j),
    ensures
        decoding(Schema::Container(fields), b) == Err::<ValueView, DecodeError>(
            DecodeError::OutOfBoundsByte { i: offset_at(field_classes(fields@), b, k) as usize },
        ),
{
    let cs = field_classes(fields@);
    lemma_floor_across_fixed(cs, b, j, k);
    lemma_first_bad(cs, b, k, 0);
}

/// Offsets within the buffer: with the same fields `j` and `k`, an offset of
/// `k` that points past the end of the buffer fails in the same way.
pub proof fn law_offset_past_end(fields: Vec<Schema>, b: Seq<u8>, j: int, k: int)
    requires
        0 <= j < k < fields@.len(),
        field_classes(fields@)[j].is_none(),
        field_classes(fields@)[k].is_none(),
        forall|m: int| j < m < k ==> (#[trigger] field_classes(fields@)[m]).is_some(),
        b.len() >= fixed_region_len(field_classes(fields@)),
        forall|m: int| 0 <= m < k ==> !bad_offset(field_classes(fields@), b, m),
        offset_at(field_classes(fields@), b, k) > b.len(),
    ensures
        decoding(Schema::Container(fields), b) == Err::<ValueView, DecodeError>(
            DecodeError::OutOfBoundsByte { i: offset_at(field_classes(fields@), b, k) as usize },
        ),
{
    let cs = field_classes(fields@);
    lemma_floor_across_fixed(cs, b, j, k);
    lemma_first_bad(cs, b, k, 0);
}

/// Lists of fixed-size elements: a buffer whose length is no multiple of the
/// element's length fails with a length mismatch that reports the buffer's
/// length and the length of the whole elements in it.
pub proof fn law_list_remainder(elem: Schema, b: Seq<u8>)
    requires
        elem.size().is_some(),
        elem.size().unwrap() > 0,
        b.len() % elem.size().unwrap() != 0,
    ensures
        decoding(Schema::List(Box::new(elem)), b) == Err::<ValueView, DecodeError>(
            length_error(b.len(), (b.len() - b.len() % elem.size().unwrap()) as nat),
        ),
{
}

} // verus!
