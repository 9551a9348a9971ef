//! Builders of the trait implementations.
use vstd::prelude::*;

use crate::ir::dag::{IdSource, Value};
use crate::ir::region::Region;
use crate::ops::{build_operation, emitted, texts2, regions1};

verus! {

/// `impl_serialize`: Implements serialization for `name` with `generics`, by `body`.
pub fn impl_serialize(region: &mut Region, ids: &mut IdSource, name: &str, generics: &str, body: Region)
    requires
        !old(region).is_terminated(),
    ensures
        emitted(
            *old(region),
            *final(region),
            *old(ids),
            *final(ids),
            "impl_serialize"@,
            Seq::<Value>::empty(),
            0,
            seq![name@, generics@],
            seq![body],
            false,
        ),
{
    let outputs = build_operation(
        region,
        ids,
        "impl_serialize",
        Vec::new(),
        0,
        texts2(name.to_owned(), generics.to_owned()),
        regions1(body),
        false,
    );
}

/// `impl_deserialize`: Implements deserialization for `name` with `generics`, by `body`.
pub fn impl_deserialize(region: &mut Region, ids: &mut IdSource, name: &str, generics: &str, body: Region)
    requires
        !old(region).is_terminated(),
    ensures
        emitted(
            *old(region),
            *final(region),
            *old(ids),
            *final(ids),
            "impl_deserialize"@,
            Seq::<Value>::empty(),
            0,
            seq![name@, generics@],
            seq![body],
            false,
        ),
{
    let outputs = build_operation(
        region,
        ids,
        "impl_deserialize",
        Vec::new(),
        0,
        texts2(name.to_owned(), generics.to_owned()),
        regions1(body),
        false,
    );
}

} // verus!
