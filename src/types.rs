//! The logical column types of the native protocol, and the dispatch from a
//! type to the codec that writes its values.

use vstd::prelude::*;

verus! {

/// A logical column type as the server declares it.
#[derive(Debug, PartialEq, Eq)]
pub enum Type {
    Int8,
    Int16,
    Int32,
    Int64,
    UInt8,
    UInt16,
    UInt32,
    UInt64,
    Float32,
    Float64,
    Bool,
    Date,
    Date32,
    DateTime,
    Uuid,
    Ipv4,
    Ipv6,
    String,
    Binary,
    FixedSizedString(usize),
    FixedSizedBinary(usize),
    Object,
    Nullable(Box<Type>),
    Array(Box<Type>),
    Mapping(Box<Type>, Box<Type>),
}

impl Type {
    /// The type with one `Nullable` wrapper removed.
    pub open spec fn spec_strip_null(self) -> Type {
        match self {
            Type::Nullable(inner) => *inner,
            _ => self,
        }
    }

    /// Collection types, which never carry a null mask of their own.
    pub open spec fn spec_is_collection(self) -> bool {
        self is Array || self is Mapping
    }

    /// Removes a `Nullable` wrapper, if there is one.
    pub fn strip_null(&self) -> (r: &Type)
        ensures
            *r == self.spec_strip_null(),
    {
        match self {
            Type::Nullable(inner) => &**inner,
            _ => self,
        }
    }

    /// Whether the type is `Array` or `Mapping`.
    pub fn is_collection(&self) -> (r: bool)
        ensures
            r == self.spec_is_collection(),
    {
        matches!(self, Type::Array(_) | Type::Mapping(_, _))
    }

    /// A deep copy of the type.
    pub fn duplicate(&self) -> (r: Type)
        ensures
            r == *self,
        decreases self,
    {
        match self {
            Type::Int8 => Type::Int8,
            Type::Int16 => Type::Int16,
            Type::Int32 => Type::Int32,
            Type::Int64 => Type::Int64,
            Type::UInt8 => Type::UInt8,
            Type::UInt16 => Type::UInt16,
            Type::UInt32 => Type::UInt32,
            Type::UInt64 => Type::UInt64,
            Type::Float32 => Type::Float32,
            Type::Float64 => Type::Float64,
            Type::Bool => Type::Bool,
            Type::Date => Type::Date,
            Type::Date32 => Type::Date32,
            Type::DateTime => Type::DateTime,
            Type::Uuid => Type::Uuid,
            Type::Ipv4 => Type::Ipv4,
            Type::Ipv6 => Type::Ipv6,
            Type::String => Type::String,
            Type::Binary => Type::Binary,
            Type::FixedSizedString(n) => Type::FixedSizedString(*n),
            Type::FixedSizedBinary(n) => Type::FixedSizedBinary(*n),
            Type::Object => Type::Object,
            Type::Nullable(inner) => Type::Nullable(Box::new(inner.duplicate())),
            Type::Array(inner) => Type::Array(Box::new(inner.duplicate())),
            Type::Mapping(k, v) => Type::Mapping(Box::new(k.duplicate()), Box::new(v.duplicate())),
        }
    }
}

/// The leaf codec that writes the values of a byte column.
#[derive(Debug, Clone, Copy, PartialEq, Eq)]
pub enum LeafCodec {
    /// Length-prefixed values, read as strings.
    VarString,
    /// Length-prefixed values, read as raw bytes.
    VarBinary,
    /// Values of exactly the given width, read as strings.
    FixedString(usize),
    /// Values of exactly the given width, read as raw bytes.
    FixedBinary(usize),
}

/// The codec selected for a type once its `Nullable` wrapper is removed;
/// `None` where no byte codec handles the type.
pub open spec fn spec_leaf_codec(t: Type) -> Option<LeafCodec> {
    match t.spec_strip_null() {
        Type::String | Type::Object => Some(LeafCodec::VarString),
        Type::Binary => Some(LeafCodec::VarBinary),
        Type::FixedSizedString(n) => Some(LeafCodec::FixedString(n)),
        Type::FixedSizedBinary(n) => Some(LeafCodec::FixedBinary(n)),
        _ => None,
    }
}

/// Selects the leaf codec for a type.
pub fn leaf_codec(t: &Type) -> (r: Option<LeafCodec>)
    ensures
        r == spec_leaf_codec(*t),
{
    match t.strip_null() {
        Type::String | Type::Object => Some(LeafCodec::VarString),
        Type::Binary => Some(LeafCodec::VarBinary),
        Type::FixedSizedString(n) => Some(LeafCodec::FixedString(*n)),
        Type::FixedSizedBinary(n) => Some(LeafCodec::FixedBinary(*n)),
        _ => None,
    }
}

} // verus!
