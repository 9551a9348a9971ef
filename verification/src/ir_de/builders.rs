//! Builders of the deserialization expression tree.
use vstd::prelude::*;

use crate::ir_de::nodes::{
    Align, BitFieldFrom, Block, Construct, DeserializeComposite, DeserializeImpl, DeserializeObject, Enclose,
    Expr, Let, Name, OkValue, Pad, Try, UnpackObject,
};

verus! {

/// The `Deserialize` implementation of `name` with this body.
pub fn deserialize_impl(name: String, generics: String, body: Expr) -> (r: DeserializeImpl)
    ensures
        r == (DeserializeImpl { name, generics, body }),
{
    DeserializeImpl { name, generics, body }
}

/// Binds `expr` to `ident` (or discards it).
pub fn let_(ident: Option<String>, expr: Expr) -> (r: Let)
    ensures
        r == (Let { ident, expr }),
{
    Let { ident, expr }
}

/// `expr`, or its error returned.
pub fn try_(expr: Expr) -> (r: Expr)
    ensures
        r matches Expr::Try(t) && *t.expr == expr,
{
    Expr::Try(Try { expr: Box::new(expr) })
}

/// The bindings, then the result.
pub fn block(statements: Vec<Let>, result: Expr) -> (r: Expr)
    ensures
        r matches Expr::Block(b) && b.statements == statements && *b.result == result,
{
    Expr::Block(Block { statements, result: Box::new(result) })
}

/// A `ty` built from the variables `args`, shown as `shown_args`.
pub fn construct(ty: String, args: Vec<String>, shown_args: Vec<String>) -> (r: Expr)
    ensures
        r == Expr::Construct(Construct { ty, args, shown_args }),
{
    Expr::Construct(Construct { ty, args, shown_args })
}

/// The variable `ident`.
pub fn name(ident: String) -> (r: Expr)
    ensures
        r == Expr::Name(Name { ident }),
{
    Expr::Name(Name { ident })
}

/// `expr` as a success.
pub fn ok(expr: Expr) -> (r: Expr)
    ensures
        r matches Expr::OkValue(o) && *o.expr == expr,
{
    Expr::OkValue(OkValue { expr: Box::new(expr) })
}

/// The bit field that `bits` hold.
pub fn bit_field_from(bits: Expr) -> (r: Expr)
    ensures
        r matches Expr::BitFieldFrom(b) && *b.bits == bits,
{
    Expr::BitFieldFrom(BitFieldFrom { bits: Box::new(bits) })
}

/// `expr` with its error annotated with `item`.
pub fn enclose(expr: Expr, item: String) -> (r: Expr)
    ensures
        r matches Expr::Enclose(x) && *x.expr == expr && x.item == item,
{
    Expr::Enclose(Enclose { item, expr: Box::new(expr) })
}

/// Skips input up to byte `until`.
pub fn pad(until: u64) -> (r: Expr)
    ensures
        r == Expr::Pad(Pad { until }),
{
    Expr::Pad(Pad { until })
}

/// Skips input up to a multiple of `multiple_of` bytes.
pub fn align(multiple_of: u64) -> (r: Expr)
    ensures
        r == Expr::Align(Align { multiple_of }),
{
    Expr::Align(Align { multiple_of })
}

/// Deserializes a `ty`.
pub fn deserialize_object(ty: String) -> (r: Expr)
    ensures
        r == Expr::DeserializeObject(DeserializeObject { ty }),
{
    Expr::DeserializeObject(DeserializeObject { ty })
}

/// Deserializes what `body` deserializes as one composite.
pub fn deserialize_composite(body: Expr) -> (r: Expr)
    ensures
        r matches Expr::DeserializeComposite(c) && *c.body == body,
{
    Expr::DeserializeComposite(DeserializeComposite { body: Box::new(body) })
}

/// Unpacks a `ty` from the bits `bit_range` of `bit_field`.
pub fn unpack_object(bit_field: String, ty: String, bit_range: std::ops::Range<u8>) -> (r: Expr)
    ensures
        r == Expr::UnpackObject(UnpackObject { bit_field, ty, bit_range }),
{
    Expr::UnpackObject(UnpackObject { bit_field, ty, bit_range })
}

} // verus!
