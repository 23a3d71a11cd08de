//! Values that the codec encodes, and the mathematical values they stand for.

use vstd::prelude::*;

verus! {

/// A value as mathematics sees it: what a decoded value is compared by.
pub enum ValueView {
    Bool(bool),
    U8(u8),
    U16(u16),
    U32(u32),
    U64(u64),
    Bytes(Seq<u8>),
    List(Seq<ValueView>),
    Optional(Option<Box<ValueView>>),
    Container(Seq<ValueView>),
}

/// A value of one of the types that a schema describes.
#[derive(Debug, PartialEq, Eq)]
pub enum Value {
    Bool(bool),
    U8(u8),
    U16(u16),
    U32(u32),
    U64(u64),
    /// A byte array; a hash is one of 32 bytes.
    Bytes(Vec<u8>),
    /// The elements of a list, in order.
    List(Vec<Value>),
    /// A value that may be absent.
    Optional(Option<Box<Value>>),
    /// The fields of a container, in wire order.
    Container(Vec<Value>),
}

/// The views of a sequence of values.
pub open spec fn views(items: Seq<Value>) -> Seq<ValueView>
    decreases items,
{
    Seq::new(
        items.len(),
        |i: int|
            if 0 <= i < items.len() {
                items[i].model()
            } else {
                ValueView::Bool(false)
            },
    )
}

impl Value {
    /// The mathematical value that this value stands for.
    pub open spec fn model(self) -> ValueView
        decreases self,
    {
        match self {
            Value::Bool(b) => ValueView::Bool(b),
            Value::U8(x) => ValueView::U8(x),
            Value::U16(x) => ValueView::U16(x),
            Value::U32(x) => ValueView::U32(x),
            Value::U64(x) => ValueView::U64(x),
            Value::Bytes(b) => ValueView::Bytes(b@),
            Value::List(items) => ValueView::List(views(items@)),
            Value::Optional(o) => ValueView::Optional(
                match o {
                    Some(x) => Some(Box::new((*x).model())),
                    None => None,
                },
            ),
            Value::Container(fields) => ValueView::Container(views(fields@)),
        }
    }
}

impl View for Value {
    type V = ValueView;

    open spec fn view(&self) -> ValueView {
        self.model()
    }
}

} // verus!
