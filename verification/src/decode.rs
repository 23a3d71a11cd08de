//! Decoding: from bytes and a schema to a value, or to the reason why the
//! bytes are no encoding under that schema.

use vstd::prelude::*;
use vstd::slice::slice_subrange;
use crate::codec::{
    chunks, collect, container_of, decode_each, decode_fields, decoding, first_error, list_of,
    variable_classes,
};
use crate::error::DecodeError;
use crate::layout::{lemma_prefix_uniform, part, unpack};
use crate::le::{le_u32, read_u16, read_u32, read_u64};
use crate::schema::{class_lens, field_classes, Schema, SizeClass};
use crate::split::{ranges_of, split};
use crate::value::{views, Value, ValueView};

verus! {

/// The result is the one that the mathematics gives.
pub open spec fn agrees(r: Result<Value, DecodeError>, expected: Result<ValueView, DecodeError>) -> bool {
    match r {
        Ok(v) => expected == Ok::<ValueView, DecodeError>(v@),
        Err(e) => expected == Err::<ValueView, DecodeError>(e),
    }
}

/// The size classes of a container's fields.
pub fn classify_fields(fields: &Vec<Schema>) -> (r: Vec<SizeClass>)
    requires
        forall|j: int| 0 <= j < fields@.len() ==> (#[trigger] fields@[j]).wf(),
    ensures
        class_lens(r@) == field_classes(fields@),
{
    let mut classes: Vec<SizeClass> = Vec::new();
    let mut i: usize = 0;
    while i < fields.len()
        invariant
            0 <= i <= fields@.len(),
            classes@.len() == i,
            forall|j: int| 0 <= j < fields@.len() ==> (#[trigger] fields@[j]).wf(),
            forall|j: int| 0 <= j < i ==> (#[trigger] classes@[j]).len() == fields@[j].size(),
        decreases fields@.len() - i,
    {
        classes.push(fields[i].classify());
        i = i + 1;
    }
    assert(class_lens(classes@) =~= field_classes(fields@));
    classes
}

/// Decodes a buffer under a schema.
///
/// The result is the value, or the error, that `decoding` gives for the
/// buffer: decoding stops at the first rule that the buffer breaks, and an
/// error from inside a field or an element comes out unchanged.
#[verifier::rlimit(60)]
pub fn decode(schema: &Schema, bytes: &[u8]) -> (r: Result<Value, DecodeError>)
    requires
        schema.wf(),
    ensures
        agrees(r, decoding(*schema, bytes@)),
    decreases schema,
{
    let len = bytes.len();
    let ghost b = bytes@;
    match schema {
        Schema::Bool => {
            if len != 1 {
                Err(DecodeError::InvalidByteLength { len, expected: 1 })
            } else if bytes[0] == 0 {
                Ok(Value::Bool(false))
            } else if bytes[0] == 1 {
                Ok(Value::Bool(true))
            } else {
                Err(DecodeError::BytesInvalid)
            }
        },
        Schema::U8 => {
            if len != 1 {
                Err(DecodeError::InvalidByteLength { len, expected: 1 })
            } else {
                Ok(Value::U8(bytes[0]))
            }
        },
        Schema::U16 => {
            if len != 2 {
                Err(DecodeError::InvalidByteLength { len, expected: 2 })
            } else {
                assert(b.subrange(0, 2) =~= b);
                Ok(Value::U16(read_u16(bytes, 0)))
            }
        },
        Schema::U32 => {
            if len != 4 {
                Err(DecodeError::InvalidByteLength { len, expected: 4 })
            } else {
                assert(b.subrange(0, 4) =~= b);
                Ok(Value::U32(read_u32(bytes, 0)))
            }
        },
        Schema::U64 => {
            if len != 8 {
                Err(DecodeError::InvalidByteLength { len, expected: 8 })
            } else {
                assert(b.subrange(0, 8) =~= b);
                Ok(Value::U64(read_u64(bytes, 0)))
            }
        },
        Schema::Bytes(n) => {
            if len != *n {
                Err(DecodeError::InvalidByteLength { len, expected: *n })
            } else {
                let mut out: Vec<u8> = Vec::new();
                let mut i: usize = 0;
                while i < len
                    invariant
                        0 <= i <= len,
                        len == bytes@.len(),
                        out@ == bytes@.subrange(0, i as int),
                    decreases len - i,
                {
                    out.push(bytes[i]);
                    i = i + 1;
                    assert(out@ =~= bytes@.subrange(0, i as int));
                }
                assert(out@ =~= b);
                Ok(Value::Bytes(out))
            }
        },
        Schema::Optional(inner) => {
            if len < 4 {
                return Err(DecodeError::InvalidByteLength { len, expected: 4 });
            }
            let flag = read_u32(bytes, 0);
            assert(flag == le_u32(b));
            if flag == 0 {
                if len == 4 {
                    Ok(Value::Optional(None))
                } else {
                    Err(DecodeError::InvalidByteLength { len, expected: 4 })
                }
            } else if flag == 1 {
                assert(decreases_to!(schema => schema->Optional_0));
                match decode(inner, slice_subrange(bytes, 4, len)) {
                    Ok(x) => Ok(Value::Optional(Some(Box::new(x)))),
                    Err(e) => Err(e),
                }
            } else {
                Err(DecodeError::BytesInvalid)
            }
        },
        Schema::List(elem) => {
            let mut items: Vec<Value> = Vec::new();
            match elem.classify() {
                SizeClass::Fixed(l) => {
                    if l == 0 {
                        return Err(DecodeError::InvalidByteLength { len, expected: 0 });
                    }
                    assert(len % l <= len) by (nonlinear_arith)
                        requires
                            l > 0,
                    ;
                    if len % l != 0 {
                        return Err(DecodeError::InvalidByteLength { len, expected: len - len % l });
                    }
                    let n = len / l;
                    let ghost rs = decode_each(**elem, chunks(b, l as nat));
                    let mut i: usize = 0;
                    while i < n
                        invariant
                            0 <= i <= n,
                            *schema == Schema::List(*elem),
                            elem.wf(),
                            l > 0,
                            n == len / l,
                            len % l == 0,
                            len == b.len(),
                            b == bytes@,
                            rs == decode_each(**elem, chunks(b, l as nat)),
                            decoding(*schema, b) == list_of(collect(rs)),
                            first_error(rs, 0) == first_error(rs, i as int),
                            items@.len() == i,
                            forall|j: int|
                                0 <= j < i ==> rs[j] == Ok::<ValueView, DecodeError>(
                                    (#[trigger] items@[j])@,
                                ),
                        decreases n - i,
                    {
                        assert(i * l + l <= len) by (nonlinear_arith)
                            requires
                                i < n,
                                n == len / l,
                                l > 0,
                                len % l == 0,
                        ;
                        assert(decreases_to!(schema => schema->List_0));
                        let sub = slice_subrange(bytes, i * l, i * l + l);
                        assert(sub@ == chunks(b, l as nat)[i as int]);
                        match decode(elem, sub) {
                            Err(e) => {
                                return Err(e);
                            },
                            Ok(v) => {
                                items.push(v);
                            },
                        }
                        i = i + 1;
                    }
                    assert(views(items@) =~= collect(rs)->Ok_0);
                    Ok(Value::List(items))
                },
                SizeClass::Variable => {
                    if len == 0 {
                        assert(views(items@) =~= Seq::<ValueView>::empty());
                        return Ok(Value::List(items));
                    }
                    if len < 4 {
                        return Err(DecodeError::InvalidByteLength { len, expected: 4 });
                    }
                    let first = read_u32(bytes, 0);
                    assert(first == le_u32(b));
                    if first < 4 || first % 4 != 0 {
                        return Err(DecodeError::OutOfBoundsByte { i: first as usize });
                    }
                    let n = (first / 4) as usize;
                    let ghost cs = variable_classes(n as nat);
                    proof {
                        lemma_prefix_uniform(cs, None, n as int);
                    }
                    if first as usize > len {
                        return Err(DecodeError::InvalidByteLength { len, expected: first as usize });
                    }
                    let mut classes: Vec<SizeClass> = Vec::new();
                    let mut i: usize = 0;
                    while i < n
                        invariant
                            0 <= i <= n,
                            classes@.len() == i,
                            forall|j: int| 0 <= j < i ==> (#[trigger] classes@[j]) == SizeClass::Variable,
                        decreases n - i,
                    {
                        classes.push(SizeClass::Variable);
                        i = i + 1;
                    }
                    assert(class_lens(classes@) =~= cs);
                    let ranges = match split(&classes, bytes) {
                        Err(e) => {
                            return Err(e);
                        },
                        Ok(ranges) => ranges,
                    };
                    let ghost parts = unpack(cs, b)->Ok_0;
                    let ghost rs = decode_each(**elem, parts);
                    i = 0;
                    while i < n
                        invariant
                            0 <= i <= n,
                            *schema == Schema::List(*elem),
                            elem.wf(),
                            b == bytes@,
                            parts.len() == n,
                            forall|j: int| 0 <= j < n ==> #[trigger] parts[j] == part(cs, b, j),
                            ranges_of(cs, b, ranges@),
                            cs.len() == n,
                            rs == decode_each(**elem, parts),
                            decoding(*schema, b) == list_of(collect(rs)),
                            first_error(rs, 0) == first_error(rs, i as int),
                            items@.len() == i,
                            forall|j: int|
                                0 <= j < i ==> rs[j] == Ok::<ValueView, DecodeError>(
                                    (#[trigger] items@[j])@,
                                ),
                        decreases n - i,
                    {
                        let (start, end) = ranges[i];
                        assert(decreases_to!(schema => schema->List_0));
                        let sub = slice_subrange(bytes, start, end);
                        assert(sub@ == parts[i as int]);
                        match decode(elem, sub) {
                            Err(e) => {
                                return Err(e);
                            },
                            Ok(v) => {
                                items.push(v);
                            },
                        }
                        i = i + 1;
                    }
                    assert(views(items@) =~= collect(rs)->Ok_0);
                    Ok(Value::List(items))
                },
            }
        },
        Schema::Container(fields) => {
            let n = fields.len();
            let ghost cs = field_classes(fields@);
            let classes = classify_fields(fields);
            let ranges = match split(&classes, bytes) {
                Err(e) => {
                    return Err(e);
                },
                Ok(ranges) => ranges,
            };
            let ghost parts = unpack(cs, b)->Ok_0;
            let ghost rs = decode_fields(fields@, parts);
            let mut vals: Vec<Value> = Vec::new();
            let mut i: usize = 0;
            while i < n
                invariant
                    0 <= i <= n,
                    *schema == Schema::Container(*fields),
                    n == fields@.len(),
                    forall|j: int| 0 <= j < n ==> (#[trigger] fields@[j]).wf(),
                    b == bytes@,
                    parts.len() == n,
                    forall|j: int| 0 <= j < n ==> #[trigger] parts[j] == part(cs, b, j),
                    ranges_of(cs, b, ranges@),
                    cs.len() == n,
                    rs == decode_fields(fields@, parts),
                    decoding(*schema, b) == container_of(collect(rs)),
                    first_error(rs, 0) == first_error(rs, i as int),
                    vals@.len() == i,
                    forall|j: int|
                        0 <= j < i ==> rs[j] == Ok::<ValueView, DecodeError>((#[trigger] vals@[j])@),
                decreases n - i,
            {
                let (start, end) = ranges[i];
                assert(decreases_to!(schema => schema->Container_0));
                let sub = slice_subrange(bytes, start, end);
                assert(sub@ == parts[i as int]);
                match decode(&fields[i], sub) {
                    Err(e) => {
                        return Err(e);
                    },
                    Ok(v) => {
                        vals.push(v);
                    },
                }
                i = i + 1;
            }
            assert(views(vals@) =~= collect(rs)->Ok_0);
            Ok(Value::Container(vals))
        },
    }
}

} // verus!
