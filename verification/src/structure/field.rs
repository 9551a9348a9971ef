//! Fields after grouping, and how they are lowered to operations.
use vstd::prelude::*;

use crate::attribute::{member_ident, BitNumbering, Member, Transform};
use crate::ir::dag::{nth_id, IdSource, Value};
use crate::ir::operation::{ops_view, OperationView};
use crate::ir::region::Region;
use crate::ops::bit_field::{
    empty_bit_field, empty_bit_field_shape, pack_bit_field, pack_bit_field_shape,
};
use crate::ops::collection::{
    deserialize_items_by_byte_count, deserialize_items_by_byte_count_shape,
    deserialize_items_by_len, deserialize_items_by_len_shape, items, items_shape, len, len_shape,
};
use crate::ops::language::{ref_, ref_shape, symref, symref_shape, try_, try_shape};
use crate::ops::serialization::{
    deserialize_object, deserialize_object_shape, serialize_object, serialize_object_shape,
};
use crate::ops::{emits, lemma_emits_nothing, lemma_emits_then, nothing, result_of, single, then, Emission};
use crate::ops::algorithm::{field_layout_emission, with_field_layout};
use crate::ir::{ToDeserializeOp, ToSerializeOp};
use crate::ops::bit_field::{unpack_bit_field, unpack_bit_field_shape};
use crate::structure::parse::FieldLayoutProperties;
use crate::text::{append_str, chars_to_string, str_chars};

verus! {

/// A member of a bit field: which struct member, its type (as text), its
/// transform, and the bits it takes.
#[derive(PartialEq, Eq, Debug)]
pub struct BitFieldMember {
    pub member: Member,
    pub ty: String,
    pub transform: Transform,
    pub bits: std::ops::Range<u8>,
}

/// A field of a struct after bit field members have been grouped.
#[derive(PartialEq, Eq, Debug)]
pub enum Field {
    /// A field serialized on its own.
    Direct {
        member: Member,
        ty: String,
        transform: Transform,
        layout_properties: FieldLayoutProperties,
    },
    /// A bit field stored as `ty`, holding `members`.
    Bit {
        ident: String,
        ty: String,
        bit_numbering: BitNumbering,
        layout_properties: FieldLayoutProperties,
        members: Vec<BitFieldMember>,
    },
}

/// What a field contributes inside its layout: the operations that produce
/// its serialized (or deserialized) result from the serializer (or
/// deserializer) at hand.
pub enum FieldBody<'a> {
    /// Serializes the member, transformed.
    SerializeMember { member: &'a Member, ty: &'a String, transform: &'a Transform },
    /// Packs the members into a bit field stored as `ty` and serializes it.
    SerializeBits { ty: &'a String, bit_numbering: BitNumbering, members: &'a Vec<BitFieldMember> },
    /// Deserializes a value of type `ty`; a collection whose size another
    /// member holds reads that member.
    DeserializeValue { ty: &'a String, transform: &'a Transform },
    /// Deserializes the raw bits of a bit field stored as `ty`.
    DeserializeBitField { ty: &'a String },
}

//------------------------------------------------------------------------------
// What lowering emits.
//------------------------------------------------------------------------------

/// The operations that turn `value` (of type `ty`) into what is serialized,
/// starting at identifier `s`.
pub open spec fn transform_emission(
    s: usize,
    serializer: Value,
    value: Value,
    ty: Seq<char>,
    transform: Transform,
) -> Emission {
    match transform {
        Transform::Length(m) => Emission {
            ops: seq![
                symref_shape(s, member_ident(m)),
                len_shape(nth_id(s, 1), serializer, result_of(s, 0), ty),
                try_shape(nth_id(s, 2), result_of(nth_id(s, 1), 0)),
                ref_shape(nth_id(s, 3), result_of(nth_id(s, 2), 0)),
            ],
            result: result_of(nth_id(s, 3), 0),
            count: 4,
        },
        Transform::LengthBy(_) => Emission {
            ops: seq![items_shape(s, value), ref_shape(nth_id(s, 1), result_of(s, 0))],
            result: result_of(nth_id(s, 1), 0),
            count: 2,
        },
        Transform::ByteCountBy(_) => Emission {
            ops: seq![items_shape(s, value), ref_shape(nth_id(s, 1), result_of(s, 0))],
            result: result_of(nth_id(s, 1), 0),
            count: 2,
        },
        _ => nothing(value),
    }
}

/// Serializing a member: its variable, transformed, then serialized.
pub open spec fn serialize_member_emission(
    s: usize,
    serializer: Value,
    member: Member,
    ty: Seq<char>,
    transform: Transform,
) -> Emission {
    let t = transform_emission(nth_id(s, 1), serializer, result_of(s, 0), ty, transform);
    let so = nth_id(s, 1 + t.count);
    Emission {
        ops: seq![symref_shape(s, member_ident(member))] + t.ops + seq![
            serialize_object_shape(so, serializer, t.result),
        ],
        result: result_of(so, 0),
        count: 2 + t.count,
    }
}

/// Packing one bit field member into `bit_field`.
pub open spec fn pack_member_emission(
    s: usize,
    serializer: Value,
    bit_field: Value,
    m: BitFieldMember,
    bit_numbering: BitNumbering,
) -> Emission {
    let t = transform_emission(nth_id(s, 1), serializer, result_of(s, 0), m.ty@, m.transform);
    let p = nth_id(s, 1 + t.count);
    let q = nth_id(s, 2 + t.count);
    Emission {
        ops: seq![symref_shape(s, member_ident(m.member))] + t.ops + seq![
            pack_bit_field_shape(p, t.result, bit_field, m.bits.start, m.bits.end, bit_numbering),
            try_shape(q, result_of(p, 0)),
        ],
        result: result_of(q, 0),
        count: 3 + t.count,
    }
}

/// Packing the first `k` members into `bit_field`, one after another.
pub open spec fn pack_members_emission(
    s: usize,
    serializer: Value,
    bit_field: Value,
    members: Seq<BitFieldMember>,
    bit_numbering: BitNumbering,
    k: int,
) -> Emission
    decreases k,
{
    if k <= 0 {
        nothing(bit_field)
    } else {
        let prev = pack_members_emission(s, serializer, bit_field, members, bit_numbering, k - 1);
        then(
            prev,
            pack_member_emission(
                nth_id(s, prev.count),
                serializer,
                prev.result,
                members[k - 1],
                bit_numbering,
            ),
        )
    }
}

/// Serializing a bit field: an empty bit field, each member packed into it,
/// and the packed bit field serialized by reference.
pub open spec fn serialize_bits_emission(
    s: usize,
    serializer: Value,
    ty: Seq<char>,
    bit_numbering: BitNumbering,
    members: Seq<BitFieldMember>,
) -> Emission {
    let p = pack_members_emission(
        nth_id(s, 1),
        serializer,
        result_of(s, 0),
        members,
        bit_numbering,
        members.len() as int,
    );
    let r = nth_id(s, 1 + p.count);
    let so = nth_id(s, 2 + p.count);
    Emission {
        ops: seq![empty_bit_field_shape(s, ty)] + p.ops + seq![
            ref_shape(r, p.result),
            serialize_object_shape(so, serializer, result_of(r, 0)),
        ],
        result: result_of(so, 0),
        count: 3 + p.count,
    }
}

/// Deserializing a value of type `ty`.
pub open spec fn deserialize_value_emission(
    s: usize,
    deserializer: Value,
    ty: Seq<char>,
    transform: Transform,
) -> Emission {
    match transform {
        Transform::LengthBy(m) => Emission {
            ops: seq![
                symref_shape(s, member_ident(m)),
                deserialize_items_by_len_shape(nth_id(s, 1), deserializer, result_of(s, 0), ty),
            ],
            result: result_of(nth_id(s, 1), 0),
            count: 2,
        },
        Transform::ByteCountBy(m) => Emission {
            ops: seq![
                symref_shape(s, member_ident(m)),
                deserialize_items_by_byte_count_shape(
                    nth_id(s, 1),
                    deserializer,
                    result_of(s, 0),
                    ty,
                ),
            ],
            result: result_of(nth_id(s, 1), 0),
            count: 2,
        },
        _ => single(deserialize_object_shape(s, deserializer, ty)),
    }
}

/// What a field body emits, starting at identifier `s`, with `input` as the
/// serializer or deserializer.
pub open spec fn body_emission(body: FieldBody, s: usize, input: Value) -> Emission {
    match body {
        FieldBody::SerializeMember { member, ty, transform } => serialize_member_emission(
            s,
            input,
            *member,
            ty@,
            *transform,
        ),
        FieldBody::SerializeBits { ty, bit_numbering, members } => serialize_bits_emission(
            s,
            input,
            ty@,
            bit_numbering,
            members@,
        ),
        FieldBody::DeserializeValue { ty, transform } => deserialize_value_emission(
            s,
            input,
            ty@,
            *transform,
        ),
        FieldBody::DeserializeBitField { ty } => single(
            deserialize_object_shape(s, input, bit_field_type_text(ty@)),
        ),
    }
}

//------------------------------------------------------------------------------
// Lowering.
//------------------------------------------------------------------------------

/// Turns `value`, of type `ty`, into what is serialized for `transform`: the
/// length of another member's collection, the items of a collection whose
/// size another member holds, or the value itself.
pub fn serialize_transform(
    region: &mut Region,
    ids: &mut IdSource,
    serializer: Value,
    value: Value,
    ty: &str,
    transform: &Transform,
) -> (result: Value)
    requires
        !old(region).is_terminated(),
    ensures
        emits(
            *old(region),
            *final(region),
            *old(ids),
            *final(ids),
            transform_emission(old(ids).next, serializer, value, ty@, *transform),
        ),
        result == transform_emission(old(ids).next, serializer, value, ty@, *transform).result,
{
    let ghost r0 = *region;
    let ghost i0 = *ids;
    let ghost s = ids.next;
    match transform {
        Transform::Length(member) => {
            let ident = member.to_ident();
            let pair = symref(region, ids, ident.as_str());
            let ghost r1 = *region;
            let ghost i1 = *ids;
            let result_len = len(region, ids, serializer, pair, ty);
            let ghost r2 = *region;
            let ghost i2 = *ids;
            let length = try_(region, ids, result_len);
            let ghost r3 = *region;
            let ghost i3 = *ids;
            let reference = ref_(region, ids, length);
            proof {
                let e1 = single(symref_shape(s, member_ident(*member)));
                let e2 = single(len_shape(i1.next, serializer, pair, ty@));
                let e3 = single(try_shape(i2.next, result_len));
                let e4 = single(ref_shape(i3.next, length));
                lemma_emits_then(r0, r1, r2, i0, i1, i2, e1, e2);
                lemma_emits_then(r0, r2, r3, i0, i2, i3, then(e1, e2), e3);
                lemma_emits_then(r0, r3, *region, i0, i3, *ids, then(then(e1, e2), e3), e4);
                reveal_with_fuel(nth_id, 4);
                let expected = transform_emission(s, serializer, value, ty@, *transform);
                assert(then(then(then(e1, e2), e3), e4).ops =~= expected.ops);
            }
            reference
        },
        Transform::LengthBy(_) | Transform::ByteCountBy(_) => {
            let collection_items = items(region, ids, value);
            let ghost r1 = *region;
            let ghost i1 = *ids;
            let reference = ref_(region, ids, collection_items);
            proof {
                let e1 = single(items_shape(s, value));
                let e2 = single(ref_shape(i1.next, collection_items));
                lemma_emits_then(r0, r1, *region, i0, i1, *ids, e1, e2);
                reveal_with_fuel(nth_id, 2);
                let expected = transform_emission(s, serializer, value, ty@, *transform);
                assert(then(e1, e2).ops =~= expected.ops);
            }
            reference
        },
        _ => {
            proof {
                lemma_emits_nothing(r0, i0, value);
            }
            value
        },
    }
}

/// Packs one member into `bit_field`.
fn pack_member(
    region: &mut Region,
    ids: &mut IdSource,
    serializer: Value,
    bit_field: Value,
    m: &BitFieldMember,
    bit_numbering: BitNumbering,
) -> (result: Value)
    requires
        !old(region).is_terminated(),
    ensures
        emits(
            *old(region),
            *final(region),
            *old(ids),
            *final(ids),
            pack_member_emission(old(ids).next, serializer, bit_field, *m, bit_numbering),
        ),
        result == pack_member_emission(old(ids).next, serializer, bit_field, *m, bit_numbering).result,
{
    let ghost r0 = *region;
    let ghost i0 = *ids;
    let ghost s = ids.next;
    let ident = m.member.to_ident();
    let field = symref(region, ids, ident.as_str());
    let ghost r1 = *region;
    let ghost i1 = *ids;
    let transformed = serialize_transform(region, ids, serializer, field, m.ty.as_str(), &m.transform);
    let ghost r2 = *region;
    let ghost i2 = *ids;
    let packed = pack_bit_field(region, ids, transformed, bit_field, m.bits.start, m.bits.end, bit_numbering);
    let ghost r3 = *region;
    let ghost i3 = *ids;
    let next = try_(region, ids, packed);
    proof {
        let e1 = single(symref_shape(s, member_ident(m.member)));
        let e2 = transform_emission(i1.next, serializer, field, m.ty@, m.transform);
        let e3 = single(pack_bit_field_shape(i2.next, transformed, bit_field, m.bits.start, m.bits.end, bit_numbering));
        let e4 = single(try_shape(i3.next, packed));
        lemma_emits_then(r0, r1, r2, i0, i1, i2, e1, e2);
        lemma_emits_then(r0, r2, r3, i0, i2, i3, then(e1, e2), e3);
        lemma_emits_then(r0, r3, *region, i0, i3, *ids, then(then(e1, e2), e3), e4);
        reveal_with_fuel(nth_id, 2);
        crate::ir::dag::lemma_nth_id_add(s, 1, e2.count);
        crate::ir::dag::lemma_nth_id_add(s, 1 + e2.count, 1);
        let expected = pack_member_emission(s, serializer, bit_field, *m, bit_numbering);
        assert(then(then(then(e1, e2), e3), e4).ops =~= expected.ops);
    }
    next
}

/// Lowers a field body.
pub fn emit_body(region: &mut Region, ids: &mut IdSource, input: Value, body: &FieldBody) -> (result: Value)
    requires
        !old(region).is_terminated(),
    ensures
        emits(
            *old(region),
            *final(region),
            *old(ids),
            *final(ids),
            body_emission(*body, old(ids).next, input),
        ),
        result == body_emission(*body, old(ids).next, input).result,
{
    let ghost r0 = *region;
    let ghost i0 = *ids;
    let ghost s = ids.next;
    match body {
        FieldBody::SerializeMember { member, ty, transform } => {
            let ident = member.to_ident();
            let field = symref(region, ids, ident.as_str());
            let ghost r1 = *region;
            let ghost i1 = *ids;
            let transformed = serialize_transform(region, ids, input, field, ty.as_str(), transform);
            let ghost r2 = *region;
            let ghost i2 = *ids;
            let result = serialize_object(region, ids, input, transformed);
            proof {
                let e1 = single(symref_shape(s, member_ident(**member)));
                let e2 = transform_emission(i1.next, input, field, ty@, **transform);
                let e3 = single(serialize_object_shape(i2.next, input, transformed));
                lemma_emits_then(r0, r1, r2, i0, i1, i2, e1, e2);
                lemma_emits_then(r0, r2, *region, i0, i2, *ids, then(e1, e2), e3);
                reveal_with_fuel(nth_id, 2);
                crate::ir::dag::lemma_nth_id_add(s, 1, e2.count);
                let expected = body_emission(*body, s, input);
                assert(then(then(e1, e2), e3).ops =~= expected.ops);
            }
            result
        },
        FieldBody::SerializeBits { ty, bit_numbering, members } => {
            let bit_field0 = empty_bit_field(region, ids, ty.as_str());
            let ghost r1 = *region;
            let ghost i1 = *ids;
            let mut bit_field = bit_field0;
            let mut k: usize = 0;
            while k < members.len()
                invariant
                    k <= members.len(),
                    emits(
                        r1,
                        *region,
                        i1,
                        *ids,
                        pack_members_emission(
                            i1.next,
                            input,
                            bit_field0,
                            members@,
                            *bit_numbering,
                            k as int,
                        ),
                    ),
                    bit_field == pack_members_emission(
                        i1.next,
                        input,
                        bit_field0,
                        members@,
                        *bit_numbering,
                        k as int,
                    ).result,
                decreases members.len() - k,
            {
                let ghost rk = *region;
                let ghost ik = *ids;
                let ghost prev = pack_members_emission(
                    i1.next,
                    input,
                    bit_field0,
                    members@,
                    *bit_numbering,
                    k as int,
                );
                bit_field = pack_member(region, ids, input, bit_field, &members[k], *bit_numbering);
                proof {
                    let step = pack_member_emission(
                        ik.next,
                        input,
                        prev.result,
                        members@[k as int],
                        *bit_numbering,
                    );
                    lemma_emits_then(r1, rk, *region, i1, ik, *ids, prev, step);
                }
                k = k + 1;
            }
            let ghost r2 = *region;
            let ghost i2 = *ids;
            let reference = ref_(region, ids, bit_field);
            let ghost r3 = *region;
            let ghost i3 = *ids;
            let result = serialize_object(region, ids, input, reference);
            proof {
                let e1 = single(empty_bit_field_shape(s, ty@));
                let e2 = pack_members_emission(
                    i1.next,
                    input,
                    bit_field0,
                    members@,
                    *bit_numbering,
                    members@.len() as int,
                );
                let e3 = single(ref_shape(i2.next, bit_field));
                let e4 = single(serialize_object_shape(i3.next, input, reference));
                lemma_emits_then(r0, r1, r2, i0, i1, i2, e1, e2);
                lemma_emits_then(r0, r2, r3, i0, i2, i3, then(e1, e2), e3);
                lemma_emits_then(r0, r3, *region, i0, i3, *ids, then(then(e1, e2), e3), e4);
                reveal_with_fuel(nth_id, 2);
                crate::ir::dag::lemma_nth_id_add(s, 1, e2.count);
                crate::ir::dag::lemma_nth_id_add(s, 1 + e2.count, 1);
                let expected = body_emission(*body, s, input);
                assert(then(then(then(e1, e2), e3), e4).ops =~= expected.ops);
            }
            result
        },
        FieldBody::DeserializeValue { ty, transform } => {
            match transform {
                Transform::LengthBy(m) => {
                    let ident = m.to_ident();
                    let length = symref(region, ids, ident.as_str());
                    let ghost r1 = *region;
                    let ghost i1 = *ids;
                    let result = deserialize_items_by_len(region, ids, input, length, ty.as_str());
                    proof {
                        let e1 = single(symref_shape(s, member_ident(*m)));
                        let e2 = single(deserialize_items_by_len_shape(i1.next, input, length, ty@));
                        lemma_emits_then(r0, r1, *region, i0, i1, *ids, e1, e2);
                        reveal_with_fuel(nth_id, 2);
                        let expected = body_emission(*body, s, input);
                        assert(then(e1, e2).ops =~= expected.ops);
                    }
                    result
                },
                Transform::ByteCountBy(m) => {
                    let ident = m.to_ident();
                    let count = symref(region, ids, ident.as_str());
                    let ghost r1 = *region;
                    let ghost i1 = *ids;
                    let result = deserialize_items_by_byte_count(region, ids, input, count, ty.as_str());
                    proof {
                        let e1 = single(symref_shape(s, member_ident(*m)));
                        let e2 = single(
                            deserialize_items_by_byte_count_shape(i1.next, input, count, ty@),
                        );
                        lemma_emits_then(r0, r1, *region, i0, i1, *ids, e1, e2);
                        reveal_with_fuel(nth_id, 2);
                        let expected = body_emission(*body, s, input);
                        assert(then(e1, e2).ops =~= expected.ops);
                    }
                    result
                },
                _ => deserialize_object(region, ids, input, ty.as_str()),
            }
        },
        FieldBody::DeserializeBitField { ty } => {
            let bit_field_ty = bit_field_type(ty);
            deserialize_object(region, ids, input, bit_field_ty.as_str())
        },
    }
}

//------------------------------------------------------------------------------
// Fields.
//------------------------------------------------------------------------------

/// The layout a field is serialized with: the whole layout when padding is
/// used, and only its byte order otherwise.
pub open spec fn padded_layout(layout: FieldLayoutProperties, use_padding: bool) -> FieldLayoutProperties {
    if use_padding {
        layout
    } else {
        FieldLayoutProperties { byte_order: layout.byte_order, offset: None, align: None, round: None }
    }
}

/// The layout a field is serialized with: the whole layout when padding is
/// used, and only its byte order otherwise.
pub fn conditionally_padded_layout(layout: &FieldLayoutProperties, use_padding: bool) -> (r: FieldLayoutProperties)
    ensures
        r == padded_layout(*layout, use_padding),
{
    match use_padding {
        false => FieldLayoutProperties { byte_order: layout.byte_order, ..Default::default() },
        true => *layout,
    }
}

/// A field body laid out as `layout` says.
pub open spec fn layout_emission(
    s: usize,
    serializer: Value,
    is_serializing: bool,
    layout: FieldLayoutProperties,
    body: FieldBody,
) -> Emission {
    field_layout_emission(
        s,
        serializer,
        is_serializing,
        layout.byte_order,
        layout.offset,
        layout.align,
        layout.round,
        body,
    )
}

fn with_layout(
    region: &mut Region,
    ids: &mut IdSource,
    serializer: Value,
    is_serializing: bool,
    layout: &FieldLayoutProperties,
    body: &FieldBody,
) -> (result: Value)
    requires
        !old(region).is_terminated(),
    ensures
        emits(
            *old(region),
            *final(region),
            *old(ids),
            *final(ids),
            layout_emission(old(ids).next, serializer, is_serializing, *layout, *body),
        ),
        result == layout_emission(old(ids).next, serializer, is_serializing, *layout, *body).result,
{
    with_field_layout(
        region,
        ids,
        serializer,
        is_serializing,
        layout.byte_order,
        layout.offset,
        layout.align,
        layout.round,
        body,
    )
}

/// The type a bit field stored as `ty` is deserialized as.
pub open spec fn bit_field_type_text(ty: Seq<char>) -> Seq<char> {
    "::sorbit::bit::BitField < "@ + ty + " >"@
}

/// The type a bit field stored as `ty` is deserialized as.
pub fn bit_field_type(ty: &String) -> (r: String)
    ensures
        r@ == bit_field_type_text(ty@),
{
    let mut v = str_chars("::sorbit::bit::BitField < ");
    append_str(&mut v, ty.as_str());
    append_str(&mut v, " >");
    chars_to_string(&v)
}

/// Unpacking the first `k` members from `bit_field`, one operation each.
pub open spec fn unpack_members_emission(
    s: usize,
    bit_field: Value,
    members: Seq<BitFieldMember>,
    bit_numbering: BitNumbering,
    k: int,
) -> Seq<OperationView>
    decreases k,
{
    if k <= 0 {
        Seq::empty()
    } else {
        unpack_members_emission(s, bit_field, members, bit_numbering, k - 1).push(
            unpack_bit_field_shape(
                nth_id(s, (k - 1) as nat),
                bit_field,
                members[k - 1].ty@,
                members[k - 1].bits.start,
                members[k - 1].bits.end,
                bit_numbering,
            ),
        )
    }
}

/// What serializing a field emits, starting at identifier `s`.
pub open spec fn serialize_field_emission(
    field: Field,
    s: usize,
    serializer: Value,
    use_padding: bool,
) -> Emission {
    match field {
        Field::Direct { member, ty, transform, layout_properties } => layout_emission(
            s,
            serializer,
            true,
            padded_layout(layout_properties, use_padding),
            FieldBody::SerializeMember { member: &member, ty: &ty, transform: &transform },
        ),
        Field::Bit { ty, bit_numbering, layout_properties, members, .. } => layout_emission(
            s,
            serializer,
            true,
            padded_layout(layout_properties, use_padding),
            FieldBody::SerializeBits { ty: &ty, bit_numbering, members: &members },
        ),
    }
}

/// What deserializing a field emits, starting at identifier `s`: for a bit
/// field, the laid out bit field, checked, and one unpacking per member.
pub open spec fn deserialize_field_emission(field: Field, s: usize, deserializer: Value) -> Seq<
    OperationView,
> {
    match field {
        Field::Direct { ty, transform, layout_properties, .. } => layout_emission(
            s,
            deserializer,
            false,
            layout_properties,
            FieldBody::DeserializeValue { ty: &ty, transform: &transform },
        ).ops,
        Field::Bit { ty, bit_numbering, layout_properties, members, .. } => {
            let raw = layout_emission(
                s,
                deserializer,
                false,
                layout_properties,
                FieldBody::DeserializeBitField { ty: &ty },
            );
            let t = nth_id(s, raw.count);
            raw.ops.push(try_shape(t, raw.result)) + unpack_members_emission(
                nth_id(s, raw.count + 1),
                result_of(t, 0),
                members@,
                bit_numbering,
                members@.len() as int,
            )
        },
    }
}

/// How many identifiers deserializing a field takes.
pub open spec fn deserialize_field_count(field: Field, s: usize, deserializer: Value) -> nat {
    match field {
        Field::Direct { ty, transform, layout_properties, .. } => layout_emission(
            s,
            deserializer,
            false,
            layout_properties,
            FieldBody::DeserializeValue { ty: &ty, transform: &transform },
        ).count,
        Field::Bit { ty, members, layout_properties, .. } => layout_emission(
            s,
            deserializer,
            false,
            layout_properties,
            FieldBody::DeserializeBitField { ty: &ty },
        ).count + 1 + members@.len(),
    }
}

/// The values that deserializing a field gives: its value, or for a bit
/// field the value of each member.
pub open spec fn deserialize_field_results(field: Field, s: usize, deserializer: Value) -> Seq<Value> {
    match field {
        Field::Direct { ty, transform, layout_properties, .. } => seq![
            layout_emission(
                s,
                deserializer,
                false,
                layout_properties,
                FieldBody::DeserializeValue { ty: &ty, transform: &transform },
            ).result,
        ],
        Field::Bit { ty, members, layout_properties, .. } => {
            let raw = layout_emission(
                s,
                deserializer,
                false,
                layout_properties,
                FieldBody::DeserializeBitField { ty: &ty },
            );
            Seq::new(members@.len(), |i: int| result_of(nth_id(s, (raw.count + 1 + i) as nat), 0))
        },
    }
}

/// What deserializing a field emits, as an emission.
pub open spec fn deserialize_field_full(field: Field, s: usize, deserializer: Value) -> Emission {
    Emission {
        ops: deserialize_field_emission(field, s, deserializer),
        result: deserializer,
        count: deserialize_field_count(field, s, deserializer),
    }
}

impl ToSerializeOp for Field {
    /// The serializer, and whether the field's padding is laid out.
    type Args = (Value, bool);

    /// Lowers serializing the field: its body, laid out as the field says
    /// (only its byte order when padding is not used), gives one result.
    fn to_serialize_op(&self, region: &mut Region, ids: &mut IdSource, args: (Value, bool)) -> (results: Vec<Value>)
        ensures
            emits(
                *old(region),
                *final(region),
                *old(ids),
                *final(ids),
                serialize_field_emission(*self, old(ids).next, args.0, args.1),
            ),
            results@ == seq![serialize_field_emission(*self, old(ids).next, args.0, args.1).result],
    {
        let (serializer, use_padding) = args;
        let result = match self {
            Field::Direct { member, ty, transform, layout_properties } => {
                let layout = conditionally_padded_layout(layout_properties, use_padding);
                with_layout(
                    region,
                    ids,
                    serializer,
                    true,
                    &layout,
                    &FieldBody::SerializeMember { member, ty, transform },
                )
            },
            Field::Bit { ty, bit_numbering, layout_properties, members, .. } => {
                let layout = conditionally_padded_layout(layout_properties, use_padding);
                with_layout(
                    region,
                    ids,
                    serializer,
                    true,
                    &layout,
                    &FieldBody::SerializeBits { ty, bit_numbering: *bit_numbering, members },
                )
            },
        };
        let mut results: Vec<Value> = Vec::new();
        results.push(result);
        assert(results@ =~= seq![result]);
        results
    }
}

impl ToDeserializeOp for Field {
    /// The deserializer.
    type Args = Value;

    /// Lowers deserializing the field: a direct field gives its laid out
    /// value; a bit field gives one unpacked value per member, from its laid
    /// out and checked raw bits.
    fn to_deserialize_op(&self, region: &mut Region, ids: &mut IdSource, deserializer: Value) -> (results: Vec<Value>)
        ensures
            final(region).ident() == old(region).ident(),
            final(region).args() == old(region).args(),
            !final(region).is_terminated(),
            ops_view(final(region).ops()) == ops_view(old(region).ops())
                + deserialize_field_emission(*self, old(ids).next, deserializer),
            emits(
                *old(region),
                *final(region),
                *old(ids),
                *final(ids),
                deserialize_field_full(*self, old(ids).next, deserializer),
            ),
            results@ == deserialize_field_results(*self, old(ids).next, deserializer),
            match *self {
                Field::Direct { ty, transform, layout_properties, .. } => {
                    let e = layout_emission(
                        old(ids).next,
                        deserializer,
                        false,
                        layout_properties,
                        FieldBody::DeserializeValue { ty: &ty, transform: &transform },
                    );
                    &&& results@ == seq![e.result]
                    &&& final(ids).next == nth_id(old(ids).next, e.count)
                },
                Field::Bit { ty, members, layout_properties, .. } => {
                    let raw = layout_emission(
                        old(ids).next,
                        deserializer,
                        false,
                        layout_properties,
                        FieldBody::DeserializeBitField { ty: &ty },
                    );
                    &&& results@ == Seq::new(
                        members@.len(),
                        |i: int| result_of(nth_id(old(ids).next, (raw.count + 1 + i) as nat), 0),
                    )
                    &&& final(ids).next == nth_id(old(ids).next, raw.count + 1 + members@.len())
                },
            },
    {
        let ghost r0 = *region;
        let ghost i0 = *ids;
        match self {
            Field::Direct { ty, transform, layout_properties, .. } => {
                let result = with_layout(
                    region,
                    ids,
                    deserializer,
                    false,
                    layout_properties,
                    &FieldBody::DeserializeValue { ty, transform },
                );
                let mut results: Vec<Value> = Vec::new();
                results.push(result);
                assert(results@ =~= seq![result]);
                results
            },
            Field::Bit { ty, bit_numbering, layout_properties, members, .. } => {
                let raw = with_layout(
                    region,
                    ids,
                    deserializer,
                    false,
                    layout_properties,
                    &FieldBody::DeserializeBitField { ty },
                );
                let ghost r1 = *region;
                let ghost i1 = *ids;
                let ghost e = layout_emission(
                    i0.next,
                    deserializer,
                    false,
                    *layout_properties,
                    FieldBody::DeserializeBitField { ty: ty },
                );
                let bit_field = try_(region, ids, raw);
                let ghost r2 = *region;
                let ghost i2 = *ids;
                proof {
                    lemma_emits_then(r0, r1, r2, i0, i1, i2, e, single(try_shape(i1.next, raw)));
                    reveal_with_fuel(nth_id, 2);
                    crate::ir::dag::lemma_nth_id_add(i0.next, e.count, 1);
                    assert(e.ops + seq![try_shape(i1.next, raw)] =~= e.ops.push(try_shape(i1.next, raw)));
                }
                let mut results: Vec<Value> = Vec::new();
                let mut k: usize = 0;
                while k < members.len()
                    invariant
                        k <= members.len(),
                        region.ident() == r2.ident(),
                        region.args() == r2.args(),
                        !region.is_terminated(),
                        ops_view(region.ops()) == ops_view(r2.ops()) + unpack_members_emission(
                            i2.next,
                            bit_field,
                            members@,
                            *bit_numbering,
                            k as int,
                        ),
                        ids.next == nth_id(i2.next, k as nat),
                        results@ == Seq::new(k as nat, |i: int| result_of(nth_id(i2.next, i as nat), 0)),
                    decreases members.len() - k,
                {
                    let ghost rk = *region;
                    let ghost ik = *ids;
                    let m = &members[k];
                    let value = unpack_bit_field(region, ids, bit_field, m.ty.as_str(), m.bits.start, m.bits.end, *bit_numbering);
                    results.push(value);
                    proof {
                        let step = single(unpack_bit_field_shape(ik.next, bit_field, m.ty@, m.bits.start, m.bits.end, *bit_numbering));
                        reveal_with_fuel(nth_id, 2);
                        crate::ir::dag::lemma_nth_id_add(i2.next, k as nat, 1);
                        assert(ops_view(region.ops()) =~= ops_view(r2.ops()) + unpack_members_emission(
                            i2.next,
                            bit_field,
                            members@,
                            *bit_numbering,
                            (k + 1) as int,
                        ));
                    }
                    k = k + 1;
                    assert(results@ =~= Seq::new(k as nat, |i: int| result_of(nth_id(i2.next, i as nat), 0)));
                }
                proof {
                    assert forall|i: int| 0 <= i < members@.len() implies #[trigger] nth_id(i2.next, i as nat) == nth_id(i0.next, (e.count + 1 + i) as nat) by {
                        crate::ir::dag::lemma_nth_id_add(i0.next, e.count + 1, i as nat);
                    }
                    crate::ir::dag::lemma_nth_id_add(i0.next, e.count + 1, members@.len());
                    assert(results@ =~= Seq::new(members@.len(), |i: int| result_of(nth_id(i0.next, (e.count + 1 + i) as nat), 0)));
                    assert(ops_view(region.ops()) =~= ops_view(r0.ops()) + deserialize_field_emission(*self, i0.next, deserializer));
                }
                results
            },
        }
    }

}

impl Field {
    /// The struct members that the field holds.
    pub fn members(&self) -> (r: Vec<&Member>)
        ensures
            match *self {
                Field::Direct { member, .. } => r@ == seq![&member],
                Field::Bit { members, .. } => r@ == members@.map_values(|m: BitFieldMember| &m.member),
            },
    {
        match self {
            Field::Direct { member, .. } => {
                let mut r: Vec<&Member> = Vec::new();
                r.push(member);
                assert(r@ =~= seq![member]);
                r
            },
            Field::Bit { members, .. } => {
                let mut r: Vec<&Member> = Vec::new();
                let mut i: usize = 0;
                while i < members.len()
                    invariant
                        i <= members.len(),
                        r@ == members@.take(i as int).map_values(|m: BitFieldMember| &m.member),
                    decreases members.len() - i,
                {
                    r.push(&members[i].member);
                    i = i + 1;
                    assert(r@ =~= members@.take(i as int).map_values(|m: BitFieldMember| &m.member));
                }
                assert(members@.take(members.len() as int) =~= members@);
                r
            },
        }
    }
}

} // verus!
