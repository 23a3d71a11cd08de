//! What the codec computes, as mathematics: the encoding of a value under a
//! schema, and the value, or the error, that a buffer decodes to.

use vstd::prelude::*;
use crate::error::DecodeError;
use crate::layout::{pack, unpack};
use crate::le::{le_u16, le_u32, le_u64, u16_le, u32_le, u64_le};
use crate::schema::{field_classes, Schema};
use crate::value::ValueView;

verus! {

/// `n` fields of the type `elem`: a list is laid out as a container of them.
pub open spec fn repeat(elem: Schema, n: nat) -> Seq<Schema> {
    Seq::new(n, |i: int| elem)
}

/// The value has the shape that the schema describes.
pub open spec fn conforms(s: Schema, v: ValueView) -> bool
    decreases v,
{
    match (s, v) {
        (Schema::Bool, ValueView::Bool(_)) => true,
        (Schema::U8, ValueView::U8(_)) => true,
        (Schema::U16, ValueView::U16(_)) => true,
        (Schema::U32, ValueView::U32(_)) => true,
        (Schema::U64, ValueView::U64(_)) => true,
        (Schema::Bytes(n), ValueView::Bytes(b)) => b.len() == n,
        (Schema::List(elem), ValueView::List(items)) => forall|i: int|
            0 <= i < items.len() ==> conforms(*elem, #[trigger] items[i]),
        (Schema::Optional(inner), ValueView::Optional(o)) => match o {
            Some(x) => conforms(*inner, *x),
            None => true,
        },
        (Schema::Container(fields), ValueView::Container(vals)) => {
            &&& fields@.len() == vals.len()
            &&& forall|i: int| 0 <= i < vals.len() ==> conforms(fields@[i], #[trigger] vals[i])
        },
        _ => false,
    }
}

/// The encodings of the values `vals`, each under the schema at its index.
pub open spec fn encodings(ss: Seq<Schema>, vals: Seq<ValueView>) -> Seq<Seq<u8>>
    decreases vals,
{
    Seq::new(
        vals.len(),
        |i: int|
            if 0 <= i < vals.len() {
                encoding(ss[i], vals[i])
            } else {
                Seq::empty()
            },
    )
}

/// The bytes that the value encodes to under the schema.
///
/// A boolean is one byte, zero or one; an integer is its bytes, least
/// significant first; a byte array is itself. An optional value is a four-byte
/// flag, zero for absence and one for presence, and behind a one the encoding
/// of what is present. A container is the layout of its fields' encodings, and
/// a list is laid out as a container of its elements.
pub open spec fn encoding(s: Schema, v: ValueView) -> Seq<u8>
    decreases v,
{
    match (s, v) {
        (Schema::Bool, ValueView::Bool(b)) => seq![if b { 1u8 } else { 0u8 }],
        (Schema::U8, ValueView::U8(x)) => seq![x],
        (Schema::U16, ValueView::U16(x)) => u16_le(x),
        (Schema::U32, ValueView::U32(x)) => u32_le(x),
        (Schema::U64, ValueView::U64(x)) => u64_le(x),
        (Schema::Bytes(_), ValueView::Bytes(b)) => b,
        (Schema::List(elem), ValueView::List(items)) => pack(
            field_classes(repeat(*elem, items.len())),
            encodings(repeat(*elem, items.len()), items),
        ),
        (Schema::Optional(inner), ValueView::Optional(o)) => match o {
            Some(x) => u32_le(1) + encoding(*inner, *x),
            None => u32_le(0),
        },
        (Schema::Container(fields), ValueView::Container(vals)) => pack(
            field_classes(fields@),
            encodings(fields@, vals),
        ),
        _ => Seq::empty(),
    }
}

/// The first error among the results from index `i` on.
pub open spec fn first_error(rs: Seq<Result<ValueView, DecodeError>>, i: int) -> Option<DecodeError>
    decreases rs.len() - i,
{
    if i >= rs.len() || i < 0 {
        None
    } else {
        match rs[i] {
            Err(e) => Some(e),
            Ok(_) => first_error(rs, i + 1),
        }
    }
}

/// All the values, if every result is one; else the first error, unchanged.
pub open spec fn collect(rs: Seq<Result<ValueView, DecodeError>>) -> Result<Seq<ValueView>, DecodeError> {
    match first_error(rs, 0) {
        Some(e) => Err(e),
        None => Ok(Seq::new(rs.len(), |i: int| rs[i]->Ok_0)),
    }
}

/// The decoded elements as a list, or the error that stopped them.
pub open spec fn list_of(r: Result<Seq<ValueView>, DecodeError>) -> Result<ValueView, DecodeError> {
    match r {
        Ok(items) => Ok(ValueView::List(items)),
        Err(e) => Err(e),
    }
}

/// The decoded fields as a container, or the error that stopped them.
pub open spec fn container_of(r: Result<Seq<ValueView>, DecodeError>) -> Result<ValueView, DecodeError> {
    match r {
        Ok(vals) => Ok(ValueView::Container(vals)),
        Err(e) => Err(e),
    }
}

/// `n` fields of variable size.
pub open spec fn variable_classes(n: nat) -> Seq<Option<nat>> {
    Seq::new(n, |i: int| None)
}

/// The buffer cut into pieces of `l` bytes.
pub open spec fn chunks(b: Seq<u8>, l: nat) -> Seq<Seq<u8>> {
    Seq::new(b.len() / l, |i: int| b.subrange(i * l, i * l + l))
}

/// What each piece decodes to under the schema `elem`.
pub open spec fn decode_each(elem: Schema, parts: Seq<Seq<u8>>) -> Seq<Result<ValueView, DecodeError>>
    decreases elem, 1nat,
{
    Seq::new(parts.len(), |i: int| decoding(elem, parts[i]))
}

/// What each piece decodes to under the schema at its index.
pub open spec fn decode_fields(fields: Seq<Schema>, parts: Seq<Seq<u8>>) -> Seq<Result<ValueView, DecodeError>>
    decreases fields, 1nat,
{
    Seq::new(
        fields.len(),
        |i: int|
            if 0 <= i < fields.len() {
                decoding(fields[i], parts[i])
            } else {
                Err(DecodeError::BytesInvalid)
            },
    )
}

/// The error of a buffer of `len` bytes where `expected` were called for.
pub open spec fn length_error(len: nat, expected: nat) -> DecodeError {
    DecodeError::InvalidByteLength { len: len as usize, expected: expected as usize }
}

/// The value that the buffer decodes to under the schema, or why it does not.
///
/// A scalar or a byte array takes a buffer of exactly its length; a boolean
/// byte above one is invalid. An optional value takes the flag alone, or a one
/// and an encoding of the inner type; a flag above one is invalid. A container
/// is split into its fields' bytes as the layout says, and then each field is
/// decoded, the first failure being the container's. A list of elements of a
/// fixed length takes any whole number of them, and fails on a remainder with
/// the buffer's length and the length of the whole elements in it. A list of
/// elements of variable size is empty for the empty buffer; otherwise its
/// first offset, which must be a positive multiple of four, gives the number
/// of elements, and the buffer is split as a container of that many fields.
pub open spec fn decoding(s: Schema, b: Seq<u8>) -> Result<ValueView, DecodeError>
    decreases s, 0nat,
{
    match s {
        Schema::Bool => if b.len() != 1 {
            Err(length_error(b.len(), 1))
        } else if b[0] == 0 {
            Ok(ValueView::Bool(false))
        } else if b[0] == 1 {
            Ok(ValueView::Bool(true))
        } else {
            Err(DecodeError::BytesInvalid)
        },
        Schema::U8 => if b.len() != 1 {
            Err(length_error(b.len(), 1))
        } else {
            Ok(ValueView::U8(b[0]))
        },
        Schema::U16 => if b.len() != 2 {
            Err(length_error(b.len(), 2))
        } else {
            Ok(ValueView::U16(le_u16(b)))
        },
        Schema::U32 => if b.len() != 4 {
            Err(length_error(b.len(), 4))
        } else {
            Ok(ValueView::U32(le_u32(b)))
        },
        Schema::U64 => if b.len() != 8 {
            Err(length_error(b.len(), 8))
        } else {
            Ok(ValueView::U64(le_u64(b)))
        },
        Schema::Bytes(n) => if b.len() != n {
            Err(length_error(b.len(), n as nat))
        } else {
            Ok(ValueView::Bytes(b))
        },
        Schema::Optional(inner) => if b.len() < 4 {
            Err(length_error(b.len(), 4))
        } else if le_u32(b) == 0 {
            if b.len() == 4 {
                Ok(ValueView::Optional(None))
            } else {
                Err(length_error(b.len(), 4))
            }
        } else if le_u32(b) == 1 {
            match decoding(*inner, b.subrange(4, b.len() as int)) {
                Ok(x) => Ok(ValueView::Optional(Some(Box::new(x)))),
                Err(e) => Err(e),
            }
        } else {
            Err(DecodeError::BytesInvalid)
        },
        Schema::List(elem) => match elem.size() {
            Some(l) => if l == 0 {
                Err(length_error(b.len(), 0))
            } else if b.len() % l != 0 {
                Err(length_error(b.len(), (b.len() - b.len() % l) as nat))
            } else {
                list_of(collect(decode_each(*elem, chunks(b, l))))
            },
            None => if b.len() == 0 {
                Ok(ValueView::List(Seq::empty()))
            } else if b.len() < 4 {
                Err(length_error(b.len(), 4))
            } else if le_u32(b) < 4 || le_u32(b) % 4 != 0 {
                Err(DecodeError::OutOfBoundsByte { i: le_u32(b) as usize })
            } else {
                match unpack(variable_classes((le_u32(b) / 4) as nat), b) {
                    Err(e) => Err(e),
                    Ok(parts) => list_of(collect(decode_each(*elem, parts))),
                }
            },
        },
        Schema::Container(fields) => match unpack(field_classes(fields@), b) {
            Err(e) => Err(e),
            Ok(parts) => container_of(collect(decode_fields(fields@, parts))),
        },
    }
}

} // verus!
