//! Primitive values: what a leaf of the schema holds, and how a primitive is
//! written as a component of a key.

use vstd::prelude::*;
use crate::bytes::{be_bytes, big_endian_u64, bytes_eq, str_eq};
use crate::schema::PrimitiveType;

verus! {

#[derive(Debug)]
pub enum PrimitiveValue {
    Int64(i64),
    /// A double, held as its 64-bit pattern.
    Double(u64),
    String(String),
    Bytes(Vec<u8>),
    Bool(bool),
}

/// A primitive as a value: text and bytes by their contents.
pub enum PrimitiveView {
    Int64(i64),
    Double(u64),
    String(Seq<char>),
    Bytes(Seq<u8>),
    Bool(bool),
}

impl View for PrimitiveValue {
    type V = PrimitiveView;

    open spec fn view(&self) -> PrimitiveView {
        match self {
            PrimitiveValue::Int64(x) => PrimitiveView::Int64(*x),
            PrimitiveValue::Double(x) => PrimitiveView::Double(*x),
            PrimitiveValue::String(x) => PrimitiveView::String(x@),
            PrimitiveValue::Bytes(x) => PrimitiveView::Bytes(x@),
            PrimitiveValue::Bool(x) => PrimitiveView::Bool(*x),
        }
    }
}

/// The type of a primitive.
pub open spec fn type_of_primitive(v: PrimitiveView) -> PrimitiveType {
    match v {
        PrimitiveView::Int64(_) => PrimitiveType::Int64,
        PrimitiveView::Double(_) => PrimitiveType::Double,
        PrimitiveView::String(_) => PrimitiveType::String,
        PrimitiveView::Bytes(_) => PrimitiveType::Bytes,
        PrimitiveView::Bool(_) => PrimitiveType::Bool,
    }
}

/// A signed number moved into the unsigned range so that order is kept: the
/// least `i64` becomes 0.
pub open spec fn biased(x: i64) -> u64 {
    (x + 0x8000_0000_0000_0000) as u64
}

/// A primitive as a component of a key. Numbers are written big-endian, a
/// signed number after biasing, so that the byte order of the components is
/// the order of the numbers; text is its UTF-8 encoding.
pub open spec fn key_component(v: PrimitiveView) -> Seq<u8> {
    match v {
        PrimitiveView::Int64(x) => be_bytes(biased(x)),
        PrimitiveView::Double(x) => be_bytes(x),
        PrimitiveView::String(x) => vstd::utf8::encode_utf8(x),
        PrimitiveView::Bytes(x) => x,
        PrimitiveView::Bool(x) => seq![if x { 1u8 } else { 0u8 }],
    }
}

/// The eight bytes of `n`, most significant first, as a vector.
pub fn be_vec(n: u64) -> (bytes: Vec<u8>)
    ensures
        bytes@ == be_bytes(n),
{
    let raw = big_endian_u64(n);
    let mut bytes: Vec<u8> = Vec::new();
    let mut i: usize = 0;
    while i < 8
        invariant
            i <= 8,
            bytes@.len() == i,
            forall|j: int| 0 <= j < i ==> bytes@[j] == raw@[j],
            forall|j: int| 0 <= j < 8 ==> raw@[j] == crate::bytes::be_byte(n, j),
        decreases 8 - i,
    {
        bytes.push(raw[i]);
        i += 1;
    }
    assert(bytes@ =~= be_bytes(n));
    bytes
}

/// A copy of `bytes`.
pub fn copy_bytes(bytes: &[u8]) -> (copy: Vec<u8>)
    ensures
        copy@ == bytes@,
{
    let mut copy: Vec<u8> = Vec::new();
    let mut i: usize = 0;
    while i < bytes.len()
        invariant
            i <= bytes.len(),
            copy@ == bytes@.subrange(0, i as int),
        decreases bytes.len() - i,
    {
        copy.push(bytes[i]);
        assert(copy@ =~= bytes@.subrange(0, i + 1));
        i += 1;
    }
    assert(copy@ =~= bytes@);
    copy
}

impl PrimitiveValue {
    pub fn get_type(&self) -> (ty: PrimitiveType)
        ensures
            ty == type_of_primitive(self@),
    {
        match self {
            PrimitiveValue::Int64(_) => PrimitiveType::Int64,
            PrimitiveValue::Double(_) => PrimitiveType::Double,
            PrimitiveValue::String(_) => PrimitiveType::String,
            PrimitiveValue::Bytes(_) => PrimitiveType::Bytes,
            PrimitiveValue::Bool(_) => PrimitiveType::Bool,
        }
    }

    /// The value as a component of a key.
    pub fn serialize_for_key_component(&self) -> (bytes: Vec<u8>)
        ensures
            bytes@ == key_component(self@),
    {
        match self {
            PrimitiveValue::Int64(x) => {
                let moved: u64 = if *x >= 0 {
                    (*x as u64) + 0x8000_0000_0000_0000u64
                } else {
                    (*x - i64::MIN) as u64
                };
                be_vec(moved)
            },
            PrimitiveValue::Double(x) => be_vec(*x),
            PrimitiveValue::String(x) => copy_bytes(x.as_str().as_bytes()),
            PrimitiveValue::Bytes(x) => copy_bytes(x.as_slice()),
            PrimitiveValue::Bool(x) => {
                let mut bytes: Vec<u8> = Vec::new();
                bytes.push(if *x { 1u8 } else { 0u8 });
                assert(bytes@ =~= key_component(self@));
                bytes
            },
        }
    }

    /// Whether two primitives are the same value.
    pub fn same_as(&self, other: &PrimitiveValue) -> (same: bool)
        ensures
            same == (self@ == other@),
    {
        match (self, other) {
            (PrimitiveValue::Int64(a), PrimitiveValue::Int64(b)) => *a == *b,
            (PrimitiveValue::Double(a), PrimitiveValue::Double(b)) => *a == *b,
            (PrimitiveValue::String(a), PrimitiveValue::String(b)) => str_eq(a.as_str(), b.as_str()),
            (PrimitiveValue::Bytes(a), PrimitiveValue::Bytes(b)) => bytes_eq(a.as_slice(), b.as_slice()),
            (PrimitiveValue::Bool(a), PrimitiveValue::Bool(b)) => *a == *b,
            _ => false,
        }
    }

    /// A copy of the value.
    pub fn duplicate(&self) -> (copy: PrimitiveValue)
        ensures
            copy@ == self@,
    {
        match self {
            PrimitiveValue::Int64(x) => PrimitiveValue::Int64(*x),
            PrimitiveValue::Double(x) => PrimitiveValue::Double(*x),
            PrimitiveValue::String(x) => PrimitiveValue::String(x.clone()),
            PrimitiveValue::Bytes(x) => PrimitiveValue::Bytes(copy_bytes(x.as_slice())),
            PrimitiveValue::Bool(x) => PrimitiveValue::Bool(*x),
        }
    }
}

/// The byte order of the key components of whole numbers is the order of the
/// numbers, so that a scan of a set by primary key visits the members in the
/// order of their keys.
pub proof fn lemma_int_key_order(a: i64, b: i64)
    ensures
        crate::bytes::lex_lt(key_component(PrimitiveView::Int64(a)), key_component(PrimitiveView::Int64(b))) == (a
            < b),
{
    crate::bytes::lemma_be_order(biased(a), biased(b));
}

} // verus!
