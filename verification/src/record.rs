//! Record-level data: type identifiers, raw payloads and the tagged union
//! of decoded values a stream can hold.

use vstd::prelude::*;

verus! {

/// TLV type field value: a 64-bit ordinal identifying a record's type.
#[derive(Clone, Copy, Debug, PartialEq, Eq, PartialOrd, Ord, Hash, Structural)]
pub struct TypeId(pub u64);

impl TypeId {
    /// Even type ids are mandatory to understand: a stream holding an
    /// unknown even type cannot be decoded.
    pub fn is_even(&self) -> (r: bool)
        ensures
            r == (self.0 % 2 == 0),
    {
        self.0 % 2 == 0
    }

    /// Odd type ids are safely ignorable when unknown: their payload is
    /// preserved uninterpreted.
    pub fn is_odd(&self) -> (r: bool)
        ensures
            r == (self.0 % 2 == 1),
    {
        self.0 % 2 == 1
    }
}

/// Unknown TLV record payload, preserved as raw bytes and compared by
/// content.
#[derive(Clone, Debug, PartialEq, Eq, PartialOrd, Ord, Hash)]
pub struct RawRecord(pub Vec<u8>);

impl View for RawRecord {
    type V = Seq<u8>;

    open spec fn view(&self) -> Seq<u8> {
        self.0@
    }
}

/// A decoded record value: the tagged union of the kinds this library
/// stores under one type id.
#[derive(Clone, Debug)]
pub enum Value {
    /// The payload of an unrecognized odd-type record, uninterpreted.
    Raw(RawRecord),
    /// A known-type record decoded as an unsigned integer.
    Unsigned(u64),
    /// A known-type record decoded as a plain byte string.
    Bytes(Vec<u8>),
}

/// Mathematical model of a decoded value.
pub enum ValueView {
    Raw(Seq<u8>),
    Unsigned(u64),
    Bytes(Seq<u8>),
}

impl View for Value {
    type V = ValueView;

    open spec fn view(&self) -> ValueView {
        match self {
            Value::Raw(raw) => ValueView::Raw(raw.0@),
            Value::Unsigned(v) => ValueView::Unsigned(*v),
            Value::Bytes(bytes) => ValueView::Bytes(bytes@),
        }
    }
}

/// The statically expected kind of a stored value, named by a lookup.
#[derive(Clone, Copy, Debug, PartialEq, Eq, Structural)]
pub enum ValueKind {
    Raw,
    Unsigned,
    Bytes,
}

/// The kind a value model belongs to.
pub open spec fn kind_of(v: ValueView) -> ValueKind {
    match v {
        ValueView::Raw(_) => ValueKind::Raw,
        ValueView::Unsigned(_) => ValueKind::Unsigned,
        ValueView::Bytes(_) => ValueKind::Bytes,
    }
}

impl Value {
    /// The kind this value belongs to.
    pub fn kind(&self) -> (k: ValueKind)
        ensures
            k == kind_of(self@),
    {
        match self {
            Value::Raw(_) => ValueKind::Raw,
            Value::Unsigned(_) => ValueKind::Unsigned,
            Value::Bytes(_) => ValueKind::Bytes,
        }
    }
}

} // verus!
