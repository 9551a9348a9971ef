//! Builders of the expression tree of [`crate::ir::nodes`].
use vstd::prelude::*;

use crate::ir::nodes::{
    AndThen, Block, DeserializeComposite, DeserializeNothing, DeserializeObject, Direction, Enclose, Expr,
    ImplDeserialize, ImplSerialize, IntoBitField, Layout, Let, MakeStruct, MakeTuple, NewBitField, OkValue,
    PackBitField, PackObject, SerializeComposite, SerializeNothing, SerializeObject, Statement, StructMember,
    SymRef, Try, UnpackObject,
};

verus! {

/// The `Serialize` implementation of `name` with this body.
pub fn impl_serialize(name: String, generics: String, body: Expr) -> (r: ImplSerialize)
    ensures
        r == (ImplSerialize { name, generics, body }),
{
    ImplSerialize { name, generics, body }
}

/// The `Deserialize` implementation of `name` with this body.
pub fn impl_deserialize(name: String, generics: String, body: Expr) -> (r: ImplDeserialize)
    ensures
        r == (ImplDeserialize { name, generics, body }),
{
    ImplDeserialize { name, generics, body }
}

/// `expr`, or its error returned.
pub fn try_(expr: Expr) -> (r: Expr)
    ensures
        r matches Expr::Try(t) && *t.expr == expr,
{
    Expr::Try(Try { expr: Box::new(expr) })
}

/// The tuple of `elements`.
pub fn make_tuple(elements: Vec<Expr>) -> (r: Expr)
    ensures
        r == Expr::MakeTuple(MakeTuple { elements }),
{
    Expr::MakeTuple(MakeTuple { elements })
}

/// The struct `name` built from `members`.
pub fn make_struct(name: String, members: Vec<StructMember>) -> (r: Expr)
    ensures
        r == Expr::MakeStruct(MakeStruct { name, members }),
{
    Expr::MakeStruct(MakeStruct { name, members })
}

/// `result`, then `expr` with its success bound to `value`.
pub fn and_then(result: Expr, value: Option<String>, expr: Expr) -> (r: Expr)
    ensures
        r matches Expr::AndThen(a) && *a.result == result && a.value == value && *a.expr == expr,
{
    Expr::AndThen(AndThen { result: Box::new(result), value, expr: Box::new(expr) })
}

/// `expr` as a success.
pub fn ok(expr: Expr) -> (r: Expr)
    ensures
        r matches Expr::OkValue(o) && *o.expr == expr,
{
    Expr::OkValue(OkValue { expr: Box::new(expr) })
}

/// The statements, then the result.
pub fn block(statements: Vec<Statement>, result: Expr) -> (r: Expr)
    ensures
        r matches Expr::Block(b) && b.statements == statements && *b.result == result,
{
    Expr::Block(Block { statements, result: Box::new(result) })
}

/// The variable `ident`.
pub fn symref(ident: String) -> (r: Expr)
    ensures
        r == Expr::Symref(SymRef { ident }),
{
    Expr::Symref(SymRef { ident })
}

/// Binds `expr` to `ident` (or discards it).
pub fn let_(ident: Option<String>, expr: Expr) -> (r: Statement)
    ensures
        r == Statement::Let(Let { ident, expr }),
{
    Statement::Let(Let { ident, expr })
}

/// `expr` with its error annotated with `item`.
pub fn enclose(expr: Expr, item: String) -> (r: Expr)
    ensures
        r matches Expr::Enclose(x) && *x.expr == expr && x.item == item,
{
    Expr::Enclose(Enclose { item, expr: Box::new(expr) })
}

/// A new bit field stored as `ty`.
pub fn new_bit_field(ty: String) -> (r: Expr)
    ensures
        r == Expr::NewBitField(NewBitField { ty }),
{
    Expr::NewBitField(NewBitField { ty })
}

/// The bit field that `packed` holds.
pub fn into_bit_field(packed: Expr) -> (r: Expr)
    ensures
        r matches Expr::IntoBitField(i) && *i.packed == packed,
{
    Expr::IntoBitField(IntoBitField { packed: Box::new(packed) })
}

/// `expr` laid out in `direction`.
pub fn layout(
    expr: Expr,
    offset: Option<u64>,
    align: Option<u64>,
    len: Option<u64>,
    round: Option<u64>,
    direction: Direction,
) -> (r: Expr)
    ensures
        r matches Expr::Layout(l) && *l.expr == expr && l.offset == offset && l.align == align && l.len == len
            && l.round == round && l.direction == direction,
{
    Expr::Layout(Layout { expr: Box::new(expr), offset, align, len, round, direction })
}

/// `expr` laid out for serializing.
pub fn layout_se(expr: Expr, offset: Option<u64>, align: Option<u64>, len: Option<u64>, round: Option<u64>) -> (r:
    Expr)
    ensures
        r matches Expr::Layout(l) && *l.expr == expr && l.offset == offset && l.align == align && l.len == len
            && l.round == round && l.direction == Direction::Serialize,
{
    layout(expr, offset, align, len, round, Direction::Serialize)
}

/// `expr` laid out for deserializing.
pub fn layout_de(expr: Expr, offset: Option<u64>, align: Option<u64>, len: Option<u64>, round: Option<u64>) -> (r:
    Expr)
    ensures
        r matches Expr::Layout(l) && *l.expr == expr && l.offset == offset && l.align == align && l.len == len
            && l.round == round && l.direction == Direction::Deserialize,
{
    layout(expr, offset, align, len, round, Direction::Deserialize)
}

/// Serializes nothing.
pub fn serialize_nothing() -> (r: Expr)
    ensures
        r == Expr::SerializeNothing(SerializeNothing),
{
    Expr::SerializeNothing(SerializeNothing)
}

/// Serializes `object`, shown as `shown`.
pub fn serialize_object(object: String, shown: String) -> (r: Expr)
    ensures
        r == Expr::SerializeObject(SerializeObject { object, shown }),
{
    Expr::SerializeObject(SerializeObject { object, shown })
}

/// Serializes what `expr` serializes as one composite.
pub fn serialize_composite(expr: Expr) -> (r: Expr)
    ensures
        r matches Expr::SerializeComposite(c) && *c.expr == expr,
{
    Expr::SerializeComposite(SerializeComposite { expr: Box::new(expr) })
}

/// Deserializes nothing.
pub fn deserialize_nothing() -> (r: Expr)
    ensures
        r == Expr::DeserializeNothing(DeserializeNothing),
{
    Expr::DeserializeNothing(DeserializeNothing)
}

/// Deserializes a `ty`.
pub fn deserialize_object(ty: String) -> (r: Expr)
    ensures
        r == Expr::DeserializeObject(DeserializeObject { ty }),
{
    Expr::DeserializeObject(DeserializeObject { ty })
}

/// Deserializes what `expr` deserializes as one composite.
pub fn deserialize_composite(expr: Expr) -> (r: Expr)
    ensures
        r matches Expr::DeserializeComposite(c) && *c.expr == expr,
{
    Expr::DeserializeComposite(DeserializeComposite { expr: Box::new(expr) })
}

/// Packs `object` into the bits `bit_range` of `bit_field`.
pub fn pack_object(bit_field: String, object: String, bit_range: std::ops::Range<u8>) -> (r: Expr)
    ensures
        r == Expr::PackObject(PackObject { bit_field, object, bit_range }),
{
    Expr::PackObject(PackObject { bit_field, object, bit_range })
}

/// The bit field `bit_field` stored as `packed_ty`, packed by `members`.
pub fn pack_bit_field(bit_field: String, packed_ty: String, members: Vec<Expr>) -> (r: Expr)
    ensures
        r == Expr::PackBitField(PackBitField { bit_field, packed_ty, members }),
{
    Expr::PackBitField(PackBitField { bit_field, packed_ty, members })
}

/// Unpacks a `ty` from the bits `bit_range` of `bit_field`.
pub fn unpack_object(bit_field: String, ty: String, bit_range: std::ops::Range<u8>) -> (r: Expr)
    ensures
        r == Expr::UnpackObject(UnpackObject { bit_field, ty, bit_range }),
{
    Expr::UnpackObject(UnpackObject { bit_field, ty, bit_range })
}

} // verus!
