//! The codec for callers that hold a schema and a value of which they know
//! nothing: the conditions that encoding and decoding ask for, tested.

use vstd::prelude::*;
use crate::codec::{conforms, decoding, encoding, encodings, repeat};
use crate::decode::{agrees, decode};
use crate::error::DecodeError;
use crate::encode::{encode, lemma_fields_sized};
use crate::layout::{
    concat, lemma_concat_monotonic, lemma_pack_len, lemma_prefix_len_monotonic, lemma_slots_len,
    pack, prefix_len, var_parts, MAX_LEN,
};
use crate::schema::{field_classes, Schema, SizeClass};
use crate::value::{views, Value, ValueView};

verus! {

/// A list conforms where each element does.
pub proof fn lemma_conforms_list(elem: Schema, items: Seq<ValueView>)
    ensures
        conforms(Schema::List(Box::new(elem)), ValueView::List(items)) <==> (forall|i: int|
            0 <= i < items.len() ==> conforms(elem, #[trigger] items[i])),
{
    let s = Schema::List(Box::new(elem));
    let v = ValueView::List(items);
    if conforms(s, v) {
        assert forall|i: int| 0 <= i < items.len() implies conforms(elem, #[trigger] items[i]) by {
            assert(conforms(*s->List_0, v->List_0[i]));
        }
    }
    if forall|i: int| 0 <= i < items.len() ==> conforms(elem, #[trigger] items[i]) {
        assert(conforms(s, v));
    }
}

/// A container conforms where it has the schema's number of fields and each
/// field conforms.
pub proof fn lemma_conforms_container(fields: Vec<Schema>, vals: Seq<ValueView>)
    ensures
        conforms(Schema::Container(fields), ValueView::Container(vals)) <==> (fields@.len()
            == vals.len() && forall|i: int|
            0 <= i < vals.len() ==> conforms(fields@[i], #[trigger] vals[i])),
{
}

/// Whether the value has the shape that the schema describes.
pub fn conforms_to(value: &Value, schema: &Schema) -> (r: bool)
    ensures
        r == conforms(*schema, value@),
    decreases value,
{
    match (schema, value) {
        (Schema::Bool, Value::Bool(_)) => true,
        (Schema::U8, Value::U8(_)) => true,
        (Schema::U16, Value::U16(_)) => true,
        (Schema::U32, Value::U32(_)) => true,
        (Schema::U64, Value::U64(_)) => true,
        (Schema::Bytes(n), Value::Bytes(b)) => b.len() == *n,
        (Schema::Optional(inner), Value::Optional(o)) => match o {
            Some(x) => {
                assert(decreases_to!(value => value->Optional_0));
                conforms_to(x, inner)
            },
            None => true,
        },
        (Schema::List(elem), Value::List(items)) => {
            let mut i: usize = 0;
            proof {
                lemma_conforms_list(**elem, views(items@));
            }
            while i < items.len()
                invariant
                    0 <= i <= items@.len(),
                    conforms(*schema, value@) <==> (forall|j: int|
                        0 <= j < items@.len() ==> conforms(**elem, #[trigger] views(items@)[j])),
                    *schema == Schema::List(*elem),
                    *value == Value::List(*items),
                    forall|j: int| 0 <= j < i ==> conforms(**elem, #[trigger] views(items@)[j]),
                decreases items@.len() - i,
            {
                assert(decreases_to!(value => value->List_0));
                assert(views(items@)[i as int] == items@[i as int]@);
                if !conforms_to(&items[i], elem) {
                    return false;
                }
                i = i + 1;
            }
            true
        },
        (Schema::Container(fields), Value::Container(vals)) => {
            proof {
                lemma_conforms_container(*fields, views(vals@));
            }
            if fields.len() != vals.len() {
                return false;
            }
            let mut i: usize = 0;
            while i < vals.len()
                invariant
                    0 <= i <= vals@.len(),
                    conforms(*schema, value@) <==> (forall|j: int|
                        0 <= j < vals@.len() ==> conforms(fields@[j], #[trigger] views(vals@)[j])),
                    fields@.len() == vals@.len(),
                    *schema == Schema::Container(*fields),
                    *value == Value::Container(*vals),
                    forall|j: int| 0 <= j < i ==> conforms(fields@[j], #[trigger] views(vals@)[j]),
                decreases vals@.len() - i,
            {
                assert(decreases_to!(value => value->Container_0));
                assert(views(vals@)[i as int] == vals@[i as int]@);
                if !conforms_to(&vals[i], &fields[i]) {
                    return false;
                }
                i = i + 1;
            }
            true
        },
        _ => false,
    }
}

/// The length of the value's encoding, or `None` where it is more than an
/// offset of four bytes can express.
pub fn encoded_len(schema: &Schema, value: &Value) -> (r: Option<usize>)
    requires
        schema.wf(),
        conforms(*schema, value@),
    ensures
        match r {
            Some(n) => n == encoding(*schema, value@).len() && n <= MAX_LEN,
            None => encoding(*schema, value@).len() > MAX_LEN,
        },
    decreases value,
{
    match (schema, value) {
        (Schema::Bool, Value::Bool(_)) => Some(1),
        (Schema::U8, Value::U8(_)) => Some(1),
        (Schema::U16, Value::U16(_)) => Some(2),
        (Schema::U32, Value::U32(_)) => Some(4),
        (Schema::U64, Value::U64(_)) => Some(8),
        (Schema::Bytes(_), Value::Bytes(b)) => Some(b.len()),
        (Schema::Optional(inner), Value::Optional(o)) => match o {
            None => Some(4),
            Some(x) => {
                assert(decreases_to!(value => value->Optional_0));
                match encoded_len(inner, x) {
                    None => None,
                    Some(n) => if n > MAX_LEN - 4 {
                        None
                    } else {
                        Some(n + 4)
                    },
                }
            },
        },
        (Schema::List(elem), Value::List(items)) => {
            let n = items.len();
            let ghost ss = repeat(**elem, n as nat);
            let ghost cs = field_classes(ss);
            let ghost parts = encodings(ss, views(items@));
            let class = elem.classify();
            proof {
                lemma_conforms_list(**elem, views(items@));
                lemma_fields_sized(ss, views(items@));
                lemma_pack_len(cs, parts);
                lemma_slots_len(cs, parts, n as int);
                elem.lemma_size_bounded();
            }
            let mut acc: u64 = 0;
            let mut i: usize = 0;
            while i < n
                invariant
                    0 <= i <= n,
                    n == items@.len(),
                    *value == Value::List(*items),
                    encoding(*schema, value@) == pack(cs, parts),
                    elem.wf(),
                    class.len() == elem.size(),
                    elem.size().is_some() ==> elem.size().unwrap() <= MAX_LEN,
                    ss == repeat(**elem, n as nat),
                    cs == field_classes(ss),
                    parts == encodings(ss, views(items@)),
                    cs.len() == n,
                    forall|j: int| 0 <= j < n ==> conforms(**elem, #[trigger] views(items@)[j]),
                    pack(cs, parts).len() == prefix_len(cs, n as int) + concat(
                        var_parts(cs, parts),
                        n as int,
                    ).len(),
                    forall|j: int| 0 <= j < n ==> (#[trigger] parts[j]).len() <= pack(cs, parts).len(),
                    acc == prefix_len(cs, i as int) + concat(var_parts(cs, parts), i as int).len(),
                    acc <= MAX_LEN,
                decreases n - i,
            {
                assert(decreases_to!(value => value->List_0));
                assert(views(items@)[i as int] == items@[i as int]@);
                assert(parts[i as int] == encoding(**elem, items@[i as int]@));
                proof {
                    lemma_prefix_len_monotonic(cs, i as int + 1, n as int);
                    lemma_concat_monotonic(var_parts(cs, parts), i as int + 1, n as int);
                }
                match class {
                    SizeClass::Fixed(l) => {
                        acc = acc + l as u64;
                    },
                    SizeClass::Variable => {
                        match encoded_len(elem, &items[i]) {
                            None => {
                                return None;
                            },
                            Some(m) => {
                                acc = acc + 4 + m as u64;
                            },
                        }
                    },
                }
                if acc > MAX_LEN as u64 {
                    return None;
                }
                i = i + 1;
            }
            Some(acc as usize)
        },
        (Schema::Container(fields), Value::Container(vals)) => {
            let n = fields.len();
            let ghost cs = field_classes(fields@);
            let ghost parts = encodings(fields@, views(vals@));
            proof {
                lemma_conforms_container(*fields, views(vals@));
                lemma_fields_sized(fields@, views(vals@));
                lemma_pack_len(cs, parts);
                lemma_slots_len(cs, parts, n as int);
            }
            let mut acc: u64 = 0;
            let mut i: usize = 0;
            while i < n
                invariant
                    0 <= i <= n,
                    n == fields@.len(),
                    n == vals@.len(),
                    *value == Value::Container(*vals),
                    encoding(*schema, value@) == pack(cs, parts),
                    cs == field_classes(fields@),
                    parts == encodings(fields@, views(vals@)),
                    forall|j: int| 0 <= j < n ==> (#[trigger] fields@[j]).wf(),
                    forall|j: int| 0 <= j < n ==> conforms(fields@[j], #[trigger] views(vals@)[j]),
                    pack(cs, parts).len() == prefix_len(cs, n as int) + concat(
                        var_parts(cs, parts),
                        n as int,
                    ).len(),
                    forall|j: int| 0 <= j < n ==> (#[trigger] parts[j]).len() <= pack(cs, parts).len(),
                    acc == prefix_len(cs, i as int) + concat(var_parts(cs, parts), i as int).len(),
                    acc <= MAX_LEN,
                decreases n - i,
            {
                assert(decreases_to!(value => value->Container_0));
                assert(views(vals@)[i as int] == vals@[i as int]@);
                assert(parts[i as int] == encoding(fields@[i as int], vals@[i as int]@));
                proof {
                    fields@[i as int].lemma_size_bounded();
                    lemma_prefix_len_monotonic(cs, i as int + 1, n as int);
                    lemma_concat_monotonic(var_parts(cs, parts), i as int + 1, n as int);
                }
                match fields[i].classify() {
                    SizeClass::Fixed(l) => {
                        acc = acc + l as u64;
                    },
                    SizeClass::Variable => {
                        match encoded_len(&fields[i], &vals[i]) {
                            None => {
                                return None;
                            },
                            Some(m) => {
                                acc = acc + 4 + m as u64;
                            },
                        }
                    },
                }
                if acc > MAX_LEN as u64 {
                    return None;
                }
                i = i + 1;
            }
            Some(acc as usize)
        },
        _ => Some(0),
    }
}

/// Encodes the value if encoding is defined for it: if the schema is well
/// formed, the value has its shape, and the encoding is short enough.
pub fn checked_encode(schema: &Schema, value: &Value) -> (r: Option<Vec<u8>>)
    ensures
        r.is_some() <==> schema.wf() && conforms(*schema, value@) && encoding(*schema, value@).len()
            <= MAX_LEN,
        r matches Some(out) ==> out@ == encoding(*schema, value@),
{
    if !schema.is_well_formed() {
        return None;
    }
    if !conforms_to(value, schema) {
        return None;
    }
    match encoded_len(schema, value) {
        None => None,
        Some(_) => Some(encode(schema, value)),
    }
}

/// Decodes the buffer if the schema is well formed; `None` if it is not.
pub fn checked_decode(schema: &Schema, bytes: &[u8]) -> (r: Option<Result<Value, DecodeError>>)
    ensures
        r.is_some() <==> schema.wf(),
        r matches Some(decoded) ==> agrees(decoded, decoding(*schema, bytes@)),
{
    if schema.is_well_formed() {
        Some(decode(schema, bytes))
    } else {
        None
    }
}

} // verus!
