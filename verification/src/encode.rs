//! Encoding: from a value and its schema to bytes.

use vstd::prelude::*;
use crate::codec::{conforms, encoding, encodings, repeat};
use crate::layout::{
    concat, fixed_region_len, lemma_concat_empty, lemma_pack_len,
    lemma_prefix_uniform, lemma_slots_len, offset_of, pack, sized, slots, var_parts, MAX_LEN,
};
use crate::le::{write_u16, write_u32, write_u64};
use crate::schema::{field_classes, fixed_region, Schema, SizeClass};
use crate::value::{views, Value, ValueView};

verus! {

/// A conforming value of a type of fixed size encodes to that many bytes.
pub proof fn lemma_fixed_len(s: Schema, v: ValueView)
    requires
        conforms(s, v),
        s.size().is_some(),
    ensures
        encoding(s, v).len() == s.size().unwrap(),
    decreases v,
{
    match (s, v) {
        (Schema::Container(fields), ValueView::Container(vals)) => {
            let cs = field_classes(fields@);
            let parts = encodings(fields@, vals);
            lemma_fields_sized(fields@, vals);
            lemma_slots_len(cs, parts, cs.len() as int);
            lemma_concat_empty(var_parts(cs, parts), cs.len() as int);
        },
        _ => {},
    }
}

/// The encodings of conforming fields have the lengths of their classes.
pub proof fn lemma_fields_sized(ss: Seq<Schema>, vals: Seq<ValueView>)
    requires
        ss.len() == vals.len(),
        forall|i: int| 0 <= i < vals.len() ==> conforms(ss[i], #[trigger] vals[i]),
    ensures
        sized(field_classes(ss), encodings(ss, vals)),
    decreases vals,
{
    let cs = field_classes(ss);
    let parts = encodings(ss, vals);
    assert forall|i: int| 0 <= i < cs.len() && (#[trigger] cs[i]).is_some() implies parts[i].len()
        == cs[i].unwrap() by {
        assert(conforms(ss[i], vals[i]));
        lemma_fixed_len(ss[i], vals[i]);
    }
}

/// Encodes a value under its schema.
///
/// The value must have the schema's shape, and its encoding must be short
/// enough for offsets of four bytes.
pub fn encode(schema: &Schema, value: &Value) -> (out: Vec<u8>)
    requires
        schema.wf(),
        conforms(*schema, value@),
        encoding(*schema, value@).len() <= MAX_LEN,
    ensures
        out@ == encoding(*schema, value@),
    decreases value,
{
    let mut out: Vec<u8> = Vec::new();
    match (schema, value) {
        (Schema::Bool, Value::Bool(b)) => {
            out.push(if *b { 1u8 } else { 0u8 });
            assert(out@ =~= encoding(*schema, value@));
        },
        (Schema::U8, Value::U8(x)) => {
            out.push(*x);
            assert(out@ =~= encoding(*schema, value@));
        },
        (Schema::U16, Value::U16(x)) => {
            write_u16(&mut out, *x);
            assert(out@ =~= encoding(*schema, value@));
        },
        (Schema::U32, Value::U32(x)) => {
            write_u32(&mut out, *x);
            assert(out@ =~= encoding(*schema, value@));
        },
        (Schema::U64, Value::U64(x)) => {
            write_u64(&mut out, *x);
            assert(out@ =~= encoding(*schema, value@));
        },
        (Schema::Bytes(_), Value::Bytes(b)) => {
            let mut i: usize = 0;
            while i < b.len()
                invariant
                    0 <= i <= b@.len(),
                    out@ == b@.subrange(0, i as int),
                decreases b@.len() - i,
            {
                out.push(b[i]);
                i = i + 1;
                assert(out@ =~= b@.subrange(0, i as int));
            }
            assert(out@ =~= b@);
        },
        (Schema::Optional(inner), Value::Optional(o)) => {
            match o {
                None => {
                    write_u32(&mut out, 0);
                    assert(out@ =~= encoding(*schema, value@));
                },
                Some(x) => {
                    write_u32(&mut out, 1);
                    assert(decreases_to!(value => value->Optional_0));
                    let mut payload = encode(inner, x);
                    out.append(&mut payload);
                    assert(out@ =~= encoding(*schema, value@));
                },
            }
        },
        (Schema::List(elem), Value::List(items)) => {
            let n = items.len();
            let ghost ss = repeat(**elem, n as nat);
            let ghost cs = field_classes(ss);
            let ghost parts = encodings(ss, views(items@));
            let class = elem.classify();
            proof {
                lemma_fields_sized(ss, views(items@));
                lemma_pack_len(cs, parts);
                lemma_prefix_uniform(cs, elem.size(), n as int);
                elem.lemma_size_bounded();
            }
            let f: usize = match class {
                SizeClass::Fixed(_) => 0,
                SizeClass::Variable => 4 * n,
            };
            let mut var: Vec<u8> = Vec::new();
            let mut i: usize = 0;
            while i < n
                invariant
                    0 <= i <= n,
                    n == items@.len(),
                    *value == Value::List(*items),
                    elem.wf(),
                    class.len() == elem.size(),
                    ss == repeat(**elem, n as nat),
                    cs == field_classes(ss),
                    parts == encodings(ss, views(items@)),
                    class == SizeClass::Variable ==> f == fixed_region_len(cs),
                    forall|j: int| 0 <= j < n ==> conforms(**elem, #[trigger] views(items@)[j]),
                    pack(cs, parts).len() <= MAX_LEN,
                    forall|j: int| 0 <= j < n ==> (#[trigger] parts[j]).len() <= pack(cs, parts).len(),
                    forall|j: int| 0 <= j <= n ==> #[trigger] offset_of(cs, parts, j) <= pack(cs, parts).len(),
                    out@ == concat(slots(cs, parts), i as int),
                    var@ == concat(var_parts(cs, parts), i as int),
                decreases n - i,
            {
                assert(decreases_to!(value => value->List_0));
                assert(views(items@)[i as int] == items@[i as int]@);
                assert(parts[i as int] == encoding(**elem, items@[i as int]@));
                assert(offset_of(cs, parts, i as int) <= pack(cs, parts).len());
                let mut payload = encode(elem, &items[i]);
                match class {
                    SizeClass::Fixed(_) => {
                        out.append(&mut payload);
                        assert(var@ =~= concat(var_parts(cs, parts), i + 1));
                    },
                    SizeClass::Variable => {
                        write_u32(&mut out, (f + var.len()) as u32);
                        var.append(&mut payload);
                    },
                }
                i = i + 1;
            }
            out.append(&mut var);
        },
        (Schema::Container(fields), Value::Container(vals)) => {
            let n = fields.len();
            let ghost cs = field_classes(fields@);
            let ghost parts = encodings(fields@, views(vals@));
            proof {
                lemma_fields_sized(fields@, views(vals@));
                lemma_pack_len(cs, parts);
            }
            let (f, _) = fixed_region(fields);
            let mut var: Vec<u8> = Vec::new();
            let mut i: usize = 0;
            while i < n
                invariant
                    0 <= i <= n,
                    n == fields@.len(),
                    n == vals@.len(),
                    *value == Value::Container(*vals),
                    cs == field_classes(fields@),
                    parts == encodings(fields@, views(vals@)),
                    f == fixed_region_len(cs),
                    forall|j: int| 0 <= j < n ==> (#[trigger] fields@[j]).wf(),
                    forall|j: int| 0 <= j < n ==> conforms(fields@[j], #[trigger] views(vals@)[j]),
                    pack(cs, parts).len() <= MAX_LEN,
                    forall|j: int| 0 <= j < n ==> (#[trigger] parts[j]).len() <= pack(cs, parts).len(),
                    forall|j: int| 0 <= j <= n ==> #[trigger] offset_of(cs, parts, j) <= pack(cs, parts).len(),
                    out@ == concat(slots(cs, parts), i as int),
                    var@ == concat(var_parts(cs, parts), i as int),
                decreases n - i,
            {
                assert(decreases_to!(value => value->Container_0));
                assert(views(vals@)[i as int] == vals@[i as int]@);
                assert(parts[i as int] == encoding(fields@[i as int], vals@[i as int]@));
                assert(offset_of(cs, parts, i as int) <= pack(cs, parts).len());
                let class = fields[i].classify();
                let mut payload = encode(&fields[i], &vals[i]);
                match class {
                    SizeClass::Fixed(_) => {
                        out.append(&mut payload);
                        assert(var@ =~= concat(var_parts(cs, parts), i + 1));
                    },
                    SizeClass::Variable => {
                        write_u32(&mut out, (f + var.len()) as u32);
                        var.append(&mut payload);
                    },
                }
                i = i + 1;
            }
            out.append(&mut var);
        },
        _ => {},
    }
    out
}

} // verus!
