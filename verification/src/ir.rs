//! The intermediate representation that the derive macros lower a type's
//! layout into: values, operations with nested regions, and their listing.
pub mod attribute;
pub mod builders;
pub mod constants;
pub mod dag;
pub mod nodes;
pub mod operation;
pub mod region;

use vstd::prelude::*;

use crate::ir::dag::{IdSource, Value};
use crate::ir::region::Region;

verus! {

/// A value that lowers to operations that serialize it: they are appended to
/// an open region, take their identifiers from `ids`, and give back the
/// values they produce.
pub trait ToSerializeOp {
    /// What the lowering takes besides the region.
    type Args;

    fn to_serialize_op(&self, region: &mut Region, ids: &mut IdSource, args: Self::Args) -> (results: Vec<Value>)
        requires
            !old(region).is_terminated(),
    ;
}

/// A value that lowers to operations that deserialize it, as
/// [`ToSerializeOp`] does for serializing.
pub trait ToDeserializeOp {
    /// What the lowering takes besides the region.
    type Args;

    fn to_deserialize_op(&self, region: &mut Region, ids: &mut IdSource, args: Self::Args) -> (results: Vec<Value>)
        requires
            !old(region).is_terminated(),
    ;
}

} // verus!
