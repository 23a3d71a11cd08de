//! Type descriptors and their classification into fixed and variable size.

use vstd::prelude::*;
use crate::layout::{all_fixed, fixed_region_len, lemma_prefix_len_monotonic, prefix_len, MAX_LEN};

verus! {

/// The description of a type that the codec can encode.
#[derive(Debug, PartialEq, Eq)]
pub enum Schema {
    /// A boolean: one byte, zero for false and one for true.
    Bool,
    /// An unsigned integer of one byte.
    U8,
    /// An unsigned integer of two bytes.
    U16,
    /// An unsigned integer of four bytes.
    U32,
    /// An unsigned integer of eight bytes.
    U64,
    /// A byte array of the given length; a hash is one of length 32.
    Bytes(usize),
    /// A sequence of any number of values of one type.
    List(Box<Schema>),
    /// A value that may be absent.
    Optional(Box<Schema>),
    /// An aggregate of fields of the given types, in wire order.
    Container(Vec<Schema>),
}

/// Whether the encoded length of a type is known from the type alone.
#[derive(Debug, Clone, Copy, PartialEq, Eq, Structural)]
pub enum SizeClass {
    /// Every value of the type encodes to this many bytes.
    Fixed(usize),
    /// The encoded length depends on the value.
    Variable,
}

impl SizeClass {
    /// The fixed length, if there is one.
    pub open spec fn len(self) -> Option<nat> {
        match self {
            SizeClass::Fixed(n) => Some(n as nat),
            SizeClass::Variable => None,
        }
    }
}

/// The size classes of a sequence of exec classes.
pub open spec fn class_lens(cs: Seq<SizeClass>) -> Seq<Option<nat>> {
    Seq::new(cs.len(), |i: int| cs[i].len())
}

/// The size classes of the given field types.
pub open spec fn field_classes(fields: Seq<Schema>) -> Seq<Option<nat>>
    decreases fields,
{
    Seq::new(
        fields.len(),
        |i: int|
            if 0 <= i < fields.len() {
                fields[i].size()
            } else {
                None
            },
    )
}

impl Schema {
    /// The schema of a 32-byte hash.
    pub fn hash() -> (r: Schema)
        ensures
            r == Schema::Bytes(32),
    {
        Schema::Bytes(32)
    }

    /// The encoded length of every value of this type, or `None` where the
    /// length depends on the value. Scalars and byte arrays have their width;
    /// lists and optional values are variable; a container is fixed if and
    /// only if each field is, with the sum of the fields' lengths.
    pub open spec fn size(self) -> Option<nat>
        decreases self,
    {
        match self {
            Schema::Bool => Some(1),
            Schema::U8 => Some(1),
            Schema::U16 => Some(2),
            Schema::U32 => Some(4),
            Schema::U64 => Some(8),
            Schema::Bytes(n) => Some(n as nat),
            Schema::List(_) => None,
            Schema::Optional(_) => None,
            Schema::Container(fields) => {
                let cs = field_classes(fields@);
                if all_fixed(cs) {
                    Some(fixed_region_len(cs))
                } else {
                    None
                }
            },
        }
    }

    /// Every length that the schema implies can be written as an offset, and
    /// no list has elements of length zero, whose number no buffer could tell.
    pub open spec fn wf(self) -> bool
        decreases self,
    {
        match self {
            Schema::Bytes(n) => n <= MAX_LEN,
            Schema::List(elem) => elem.wf() && elem.size() != Some(0nat),
            Schema::Optional(inner) => inner.wf(),
            Schema::Container(fields) => {
                &&& forall|i: int| 0 <= i < fields@.len() ==> (#[trigger] fields@[i]).wf()
                &&& fixed_region_len(field_classes(fields@)) <= MAX_LEN
            },
            _ => true,
        }
    }

    /// A well-formed schema of fixed size has a length that an offset can hold.
    pub proof fn lemma_size_bounded(self)
        requires
            self.wf(),
        ensures
            self.size().is_some() ==> self.size().unwrap() <= MAX_LEN,
    {
        match self {
            _ => {},
        }
    }

    /// Whether the schema is well formed.
    pub fn is_well_formed(&self) -> (r: bool)
        ensures
            r == self.wf(),
        decreases self,
    {
        match self {
            Schema::Bytes(n) => *n <= MAX_LEN,
            Schema::List(elem) => {
                assert(decreases_to!(self => self->List_0));
                if !elem.is_well_formed() {
                    return false;
                }
                match elem.classify() {
                    SizeClass::Fixed(l) => l != 0,
                    SizeClass::Variable => true,
                }
            },
            Schema::Optional(inner) => {
                assert(decreases_to!(self => self->Optional_0));
                inner.is_well_formed()
            },
            Schema::Container(fields) => {
                let ghost cs = field_classes(fields@);
                let mut total: u64 = 0;
                let mut i: usize = 0;
                while i < fields.len()
                    invariant
                        0 <= i <= fields@.len(),
                        *self == Schema::Container(*fields),
                        cs == field_classes(fields@),
                        forall|j: int| 0 <= j < i ==> (#[trigger] fields@[j]).wf(),
                        total == prefix_len(cs, i as int),
                        total <= MAX_LEN,
                    decreases fields@.len() - i,
                {
                    assert(decreases_to!(self => self->Container_0));
                    if !fields[i].is_well_formed() {
                        return false;
                    }
                    proof {
                        fields@[i as int].lemma_size_bounded();
                        lemma_prefix_len_monotonic(cs, i as int + 1, cs.len() as int);
                    }
                    let slot: u64 = match fields[i].classify() {
                        SizeClass::Fixed(n) => n as u64,
                        SizeClass::Variable => 4,
                    };
                    total = total + slot;
                    if total > MAX_LEN as u64 {
                        return false;
                    }
                    i = i + 1;
                }
                true
            },
            _ => true,
        }
    }

    /// Classifies the type: `Fixed` with its length, or `Variable`.
    pub fn classify(&self) -> (r: SizeClass)
        requires
            self.wf(),
        ensures
            r.len() == self.size(),
        decreases self,
    {
        match self {
            Schema::Bool => SizeClass::Fixed(1),
            Schema::U8 => SizeClass::Fixed(1),
            Schema::U16 => SizeClass::Fixed(2),
            Schema::U32 => SizeClass::Fixed(4),
            Schema::U64 => SizeClass::Fixed(8),
            Schema::Bytes(n) => SizeClass::Fixed(*n),
            Schema::List(_) => SizeClass::Variable,
            Schema::Optional(_) => SizeClass::Variable,
            Schema::Container(fields) => {
                assert(decreases_to!(self => self->Container_0));
                let (total, fixed) = fixed_region(fields);
                if fixed {
                    SizeClass::Fixed(total)
                } else {
                    SizeClass::Variable
                }
            },
        }
    }
}

/// The length of the fixed region of a container with the given fields, and
/// whether every field has a fixed size.
pub fn fixed_region(fields: &Vec<Schema>) -> (r: (usize, bool))
    requires
        forall|j: int| 0 <= j < fields@.len() ==> (#[trigger] fields@[j]).wf(),
        fixed_region_len(field_classes(fields@)) <= MAX_LEN,
    ensures
        r.0 == fixed_region_len(field_classes(fields@)),
        r.1 == all_fixed(field_classes(fields@)),
    decreases fields,
{
    let ghost cs = field_classes(fields@);
    let mut total: usize = 0;
    let mut fixed = true;
    let mut i: usize = 0;
    while i < fields.len()
        invariant
            0 <= i <= fields@.len(),
            cs == field_classes(fields@),
            forall|j: int| 0 <= j < fields@.len() ==> (#[trigger] fields@[j]).wf(),
            fixed_region_len(cs) <= MAX_LEN,
            total == prefix_len(cs, i as int),
            fixed <==> forall|j: int| 0 <= j < i ==> (#[trigger] cs[j]).is_some(),
        decreases fields@.len() - i,
    {
        proof {
            lemma_prefix_len_monotonic(cs, i as int + 1, cs.len() as int);
        }
        match fields[i].classify() {
            SizeClass::Fixed(n) => {
                total = total + n;
            },
            SizeClass::Variable => {
                total = total + 4;
                fixed = false;
            },
        }
        i = i + 1;
    }
    (total, fixed)
}


} // verus!
