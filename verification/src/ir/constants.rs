//! The paths that generated code names: sorbit's traits and types, and the
//! type parameters of the generated methods.
use vstd::prelude::*;

verus! {

/// `::sorbit::bit::BitField`.
pub struct BitFieldType;

/// `::sorbit::error::SerializeError`.
pub struct ErrorTrait;

/// `::sorbit::serialize::Serializer`.
pub struct SerializerTrait;

/// `::sorbit::serialize::SerializerOutput`.
pub struct SerializerOutputTrait;

/// `S`, the serializer type parameter.
pub struct SerializerType;

/// `::sorbit::serialize::Serialize`.
pub struct SerializeTrait;

/// `::sorbit::deserialize::Deserializer`.
pub struct DeserializerTrait;

/// `D`, the deserializer type parameter.
pub struct DeserializerType;

/// `::sorbit::deserialize::Deserialize`.
pub struct DeserializeTrait;

pub const BIT_FIELD_TYPE: BitFieldType = BitFieldType;

pub const ERROR_TRAIT: ErrorTrait = ErrorTrait;

pub const SERIALIZER_TRAIT: SerializerTrait = SerializerTrait;

pub const SERIALIZER_OUTPUT_TRAIT: SerializerOutputTrait = SerializerOutputTrait;

pub const SERIALIZER_TYPE: SerializerType = SerializerType;

pub const SERIALIZE_TRAIT: SerializeTrait = SerializeTrait;

pub const DESERIALIZER_TRAIT: DeserializerTrait = DeserializerTrait;

pub const DESERIALIZER_TYPE: DeserializerType = DeserializerType;

pub const DESERIALIZE_TRAIT: DeserializeTrait = DeserializeTrait;

impl BitFieldType {
    /// The path that generated code names.
    pub fn path(&self) -> (r: &'static str)
        ensures
            r@ == "::sorbit::bit::BitField"@,
    {
        "::sorbit::bit::BitField"
    }
}

impl ErrorTrait {
    /// The path that generated code names.
    pub fn path(&self) -> (r: &'static str)
        ensures
            r@ == "::sorbit::error::SerializeError"@,
    {
        "::sorbit::error::SerializeError"
    }
}

impl SerializerTrait {
    /// The path that generated code names.
    pub fn path(&self) -> (r: &'static str)
        ensures
            r@ == "::sorbit::serialize::Serializer"@,
    {
        "::sorbit::serialize::Serializer"
    }
}

impl SerializerOutputTrait {
    /// The path that generated code names.
    pub fn path(&self) -> (r: &'static str)
        ensures
            r@ == "::sorbit::serialize::SerializerOutput"@,
    {
        "::sorbit::serialize::SerializerOutput"
    }
}

impl SerializerType {
    /// The path that generated code names.
    pub fn path(&self) -> (r: &'static str)
        ensures
            r@ == "S"@,
    {
        "S"
    }
}

impl SerializeTrait {
    /// The path that generated code names.
    pub fn path(&self) -> (r: &'static str)
        ensures
            r@ == "::sorbit::serialize::Serialize"@,
    {
        "::sorbit::serialize::Serialize"
    }
}

impl DeserializerTrait {
    /// The path that generated code names.
    pub fn path(&self) -> (r: &'static str)
        ensures
            r@ == "::sorbit::deserialize::Deserializer"@,
    {
        "::sorbit::deserialize::Deserializer"
    }
}

impl DeserializerType {
    /// The path that generated code names.
    pub fn path(&self) -> (r: &'static str)
        ensures
            r@ == "D"@,
    {
        "D"
    }
}

impl DeserializeTrait {
    /// The path that generated code names.
    pub fn path(&self) -> (r: &'static str)
        ensures
            r@ == "::sorbit::deserialize::Deserialize"@,
    {
        "::sorbit::deserialize::Deserialize"
    }
}

} // verus!
