//! Fields as their attributes describe them.
use vstd::prelude::*;

use crate::attribute::{BitNumbering, ByteOrder, Transform};

verus! {

/// Where a field or bit field goes: its byte order, the offset it starts at,
/// the multiple its start is aligned to, and the multiple its size is
/// rounded up to.
#[derive(Clone, Copy, PartialEq, Eq, Structural, Debug)]
pub struct FieldLayoutProperties {
    pub byte_order: Option<ByteOrder>,
    pub offset: Option<u64>,
    pub align: Option<u64>,
    pub round: Option<u64>,
}

impl Default for FieldLayoutProperties {
    /// No byte order, offset, alignment or rounding.
    fn default() -> (r: Self)
        ensures
            r.byte_order is None,
            r.offset is None,
            r.align is None,
            r.round is None,
    {
        FieldLayoutProperties { byte_order: None, offset: None, align: None, round: None }
    }
}

/// What a bit field member says of the storage of its bit field: the type it
/// is stored as, and its bit numbering.
#[derive(PartialEq, Eq, Debug)]
pub struct BitFieldStorageProperties {
    pub storage_ty: Option<String>,
    pub bit_numbering: Option<BitNumbering>,
}

/// A field of a struct as its attributes describe it; types are given as
/// their text.
#[derive(PartialEq, Eq, Debug)]
pub enum Field {
    /// A field serialized on its own.
    Direct {
        ident: Option<String>,
        ty: String,
        transform: Transform,
        layout_properties: FieldLayoutProperties,
    },
    /// A member of the bit field `storage_ident`, in the bits `bits`.
    Bit {
        ident: Option<String>,
        ty: String,
        transform: Transform,
        bits: std::ops::Range<u8>,
        storage_ident: String,
        storage_properties: BitFieldStorageProperties,
        layout_properties: FieldLayoutProperties,
    },
}

/// A struct as its attributes describe it: its name and generics (as
/// text), its byte order, the length it is padded to, the size it is
/// rounded up to, and its fields in order.
#[derive(PartialEq, Eq, Debug)]
pub struct Struct {
    pub ident: String,
    pub generics: String,
    pub byte_order: Option<ByteOrder>,
    pub len: Option<u64>,
    pub round: Option<u64>,
    pub fields: Vec<Field>,
}

} // verus!
