//! What lowering a field guarantees, stated over the operations it emits:
//! each law speaks of the operations by their names, inputs and attributes,
//! wherever they stand (nested regions included).
use vstd::prelude::*;

use crate::ir::dag::Value;
use crate::ir::operation::OperationView;
use crate::ops::algorithm::{
    alignment_emission, body_region, byte_order_emission, field_layout_emission, offset_emission,
    rounded_region, rounding_emission, yield_shape,
};
use crate::attribute::{bit_numbering_text, BitNumbering};
use crate::ir::dag::nth_id;
use crate::ops::result_of;
use crate::structure::field::{
    body_emission, pack_member_emission, pack_members_emission, serialize_bits_emission,
    serialize_field_emission, transform_emission, BitFieldMember, Field, FieldBody,
    deserialize_field_emission, deserialize_value_emission, layout_emission, unpack_members_emission,
};
use crate::attribute::{member_ident, Transform};

verus! {

//------------------------------------------------------------------------------
// Operations wherever they stand.
//------------------------------------------------------------------------------

/// `op` and every operation nested in its regions satisfy `p`.
pub open spec fn op_satisfies(op: OperationView, p: spec_fn(OperationView) -> bool) -> bool
    decreases op,
{
    &&& p(op)
    &&& forall|j: int, i: int|
        0 <= j < op.regions.len() && 0 <= i < op.regions[j].operations.len() ==> op_satisfies(
            #[trigger] op.regions[j].operations[i],
            p,
        )
}

/// Every operation of `ops`, and every operation nested in them, satisfies
/// `p`.
pub open spec fn all_satisfy(ops: Seq<OperationView>, p: spec_fn(OperationView) -> bool) -> bool {
    forall|i: int| 0 <= i < ops.len() ==> op_satisfies(#[trigger] ops[i], p)
}

/// Some operation of `ops`, or nested in them, satisfies `p`.
pub open spec fn some_satisfies(ops: Seq<OperationView>, p: spec_fn(OperationView) -> bool) -> bool {
    exists|i: int| 0 <= i < ops.len() && op_has(#[trigger] ops[i], p)
}

/// `op`, or an operation nested in its regions, satisfies `p`.
pub open spec fn op_has(op: OperationView, p: spec_fn(OperationView) -> bool) -> bool
    decreases op,
{
    ||| p(op)
    ||| exists|j: int, i: int|
        0 <= j < op.regions.len() && 0 <= i < op.regions[j].operations.len() && op_has(
            #[trigger] op.regions[j].operations[i],
            p,
        )
}

proof fn lemma_all_concat(a: Seq<OperationView>, b: Seq<OperationView>, p: spec_fn(OperationView) -> bool)
    requires
        all_satisfy(a, p),
        all_satisfy(b, p),
    ensures
        all_satisfy(a + b, p),
{
    assert forall|i: int| 0 <= i < (a + b).len() implies op_satisfies(#[trigger] (a + b)[i], p) by {
        if i < a.len() {
            assert((a + b)[i] == a[i]);
        } else {
            assert((a + b)[i] == b[i - a.len()]);
        }
    }
}

proof fn lemma_some_concat(a: Seq<OperationView>, b: Seq<OperationView>, p: spec_fn(OperationView) -> bool)
    requires
        some_satisfies(a, p) || some_satisfies(b, p),
    ensures
        some_satisfies(a + b, p),
{
    if some_satisfies(a, p) {
        let i = choose|i: int| 0 <= i < a.len() && op_has(#[trigger] a[i], p);
        assert((a + b)[i] == a[i]);
    } else {
        let i = choose|i: int| 0 <= i < b.len() && op_has(#[trigger] b[i], p);
        assert((a + b)[a.len() + i] == b[i]);
    }
}

/// A leaf operation (no regions) satisfying `p`.
proof fn lemma_leaf(op: OperationView, p: spec_fn(OperationView) -> bool)
    requires
        op.regions.len() == 0,
        p(op),
    ensures
        all_satisfy(seq![op], p),
{
    assert(op_satisfies(seq![op][0], p));
}

/// An operation with one region whose operations all satisfy `p`.
proof fn lemma_one_region(op: OperationView, p: spec_fn(OperationView) -> bool)
    requires
        op.regions.len() == 1,
        p(op),
        all_satisfy(op.regions[0].operations, p),
    ensures
        all_satisfy(seq![op], p),
{
    assert forall|j: int, i: int|
        0 <= j < op.regions.len() && 0 <= i < op.regions[j].operations.len() implies op_satisfies(
        #[trigger] op.regions[j].operations[i],
        p,
    ) by {
        assert(j == 0);
    }
    assert(op_satisfies(seq![op][0], p));
}

/// An operation with one region in which some operation satisfies `p`.
proof fn lemma_some_in_region(op: OperationView, p: spec_fn(OperationView) -> bool)
    requires
        op.regions.len() == 1,
        some_satisfies(op.regions[0].operations, p),
    ensures
        some_satisfies(seq![op], p),
{
    let i = choose|i: int| 0 <= i < op.regions[0].operations.len() && op_has(#[trigger] op.regions[0].operations[i], p);
    assert(op_has(op.regions[0].operations[i], p));
    assert(op_has(op, p));
    assert(seq![op][0] == op);
}

//------------------------------------------------------------------------------
// The operations that lay a field out.
//------------------------------------------------------------------------------

/// The names of the operations that lay a field out around its body.
pub open spec fn is_layout_name(name: Seq<char>) -> bool {
    ||| name == "pad"@
    ||| name == "align"@
    ||| name == "try"@
    ||| name == "byte_order"@
    ||| name == "serialize_composite"@
    ||| name == "deserialize_composite"@
    ||| name == "member"@
    ||| name == "ok"@
    ||| name == "yield"@
}

/// `p` holds of every operation that lays a field out.
pub open spec fn holds_for_layout(p: spec_fn(OperationView) -> bool) -> bool {
    forall|op: OperationView| is_layout_name(op.name) ==> #[trigger] p(op)
}

/// `p` holds of the operations that wrap a body in a byte order.
pub open spec fn holds_for_wrapping(p: spec_fn(OperationView) -> bool) -> bool {
    forall|op: OperationView| (op.name == "byte_order"@ || op.name == "yield"@) ==> #[trigger] p(op)
}

/// `p` holds of everything the body emits, wherever it starts.
pub open spec fn holds_for_body(body: FieldBody, p: spec_fn(OperationView) -> bool) -> bool {
    forall|t: usize, x: Value| all_satisfy(#[trigger] body_emission(body, t, x).ops, p)
}

/// Something the body emits satisfies `p`, wherever it starts.
pub open spec fn body_has(body: FieldBody, p: spec_fn(OperationView) -> bool) -> bool {
    forall|t: usize, x: Value| some_satisfies(#[trigger] body_emission(body, t, x).ops, p)
}

proof fn lemma_body_region_all(id: usize, ops: Seq<OperationView>, y: usize, result: Value, p: spec_fn(OperationView) -> bool)
    requires
        all_satisfy(ops, p),
        holds_for_wrapping(p),
    ensures
        all_satisfy(body_region(id, ops, y, result).operations, p),
{
    let ys = yield_shape(y, seq![result]);
    lemma_leaf(ys, p);
    lemma_all_concat(ops, seq![ys], p);
    assert(ops + seq![ys] =~= ops.push(ys));
}

proof fn lemma_body_region_some(id: usize, ops: Seq<OperationView>, y: usize, result: Value, p: spec_fn(OperationView) -> bool)
    requires
        some_satisfies(ops, p),
    ensures
        some_satisfies(body_region(id, ops, y, result).operations, p),
{
    let ys = yield_shape(y, seq![result]);
    lemma_some_concat(ops, seq![ys], p);
    assert(ops + seq![ys] =~= ops.push(ys));
}

/// Laying a body out adds only layout operations around it: what holds of
/// every operation of the body and of every layout operation holds of every
/// operation of the laid out body.
pub proof fn lemma_layout_keeps_all(
    s: usize,
    serializer: Value,
    is_serializing: bool,
    order: Option<crate::attribute::ByteOrder>,
    offset: Option<u64>,
    alignment: Option<u64>,
    round: Option<u64>,
    body: FieldBody,
    p: spec_fn(OperationView) -> bool,
)
    requires
        holds_for_layout(p),
        holds_for_body(body, p),
    ensures
        all_satisfy(
            field_layout_emission(s, serializer, is_serializing, order, offset, alignment, round, body).ops,
            p,
        ),
{
    let o = offset_emission(s, serializer, offset, is_serializing);
    let a = alignment_emission(crate::ir::dag::nth_id(s, o.count), serializer, alignment, is_serializing);
    let rs = crate::ir::dag::nth_id(s, o.count + a.count);
    let r = rounding_emission(rs, serializer, round, is_serializing, order, body);
    assert(all_satisfy(o.ops, p)) by {
        assert forall|i: int| 0 <= i < o.ops.len() implies op_satisfies(#[trigger] o.ops[i], p) by {
            assert(is_layout_name(o.ops[i].name));
        }
    }
    assert(all_satisfy(a.ops, p)) by {
        assert forall|i: int| 0 <= i < a.ops.len() implies op_satisfies(#[trigger] a.ops[i], p) by {
            assert(is_layout_name(a.ops[i].name));
        }
    }
    lemma_rounding_keeps_all(rs, serializer, round, is_serializing, order, body, p);
    lemma_all_concat(o.ops, a.ops, p);
    lemma_all_concat(o.ops + a.ops, r.ops, p);
}

proof fn lemma_byte_order_keeps_all(
    s: usize,
    serializer: Value,
    order: Option<crate::attribute::ByteOrder>,
    is_serializing: bool,
    body: FieldBody,
    p: spec_fn(OperationView) -> bool,
)
    requires
        holds_for_wrapping(p),
        holds_for_body(body, p),
    ensures
        all_satisfy(byte_order_emission(s, serializer, order, is_serializing, body).ops, p),
{
    match order {
        Some(o) => {
            let b = body_emission(body, crate::ir::dag::nth_id(s, 1), crate::ops::result_of(s, 0));
            let y = crate::ir::dag::nth_id(s, 1 + b.count);
            assert(all_satisfy(b.ops, p));
            lemma_body_region_all(s, b.ops, y, b.result, p);
            let op = byte_order_emission(s, serializer, order, is_serializing, body).ops[0];
            lemma_one_region(op, p);
            assert(byte_order_emission(s, serializer, order, is_serializing, body).ops =~= seq![op]);
        },
        None => {
            assert(all_satisfy(body_emission(body, s, serializer).ops, p));
        },
    }
}

proof fn lemma_rounding_keeps_all(
    s: usize,
    serializer: Value,
    round: Option<u64>,
    is_serializing: bool,
    order: Option<crate::attribute::ByteOrder>,
    body: FieldBody,
    p: spec_fn(OperationView) -> bool,
)
    requires
        holds_for_layout(p),
        holds_for_body(body, p),
    ensures
        all_satisfy(rounding_emission(s, serializer, round, is_serializing, order, body).ops, p),
{
    let e = rounding_emission(s, serializer, round, is_serializing, order, body);
    assert(holds_for_wrapping(p)) by {
        assert forall|op: OperationView| (op.name == "byte_order"@ || op.name == "yield"@) implies #[trigger] p(op) by {
            assert(is_layout_name(op.name));
        }
    }
    match round {
        Some(rd) => {
            let inner = byte_order_emission(crate::ir::dag::nth_id(s, 1), crate::ops::result_of(s, 0), order, is_serializing, body);
            lemma_byte_order_keeps_all(crate::ir::dag::nth_id(s, 1), crate::ops::result_of(s, 0), order, is_serializing, body, p);
            let region = rounded_region(s, inner, rd, is_serializing);
            let tail = seq![
                crate::ops::serialization::align_shape(crate::ir::dag::nth_id(s, 1 + inner.count), crate::ops::result_of(s, 0), rd, is_serializing),
                crate::ops::language::try_shape(crate::ir::dag::nth_id(s, 2 + inner.count), crate::ops::result_of(crate::ir::dag::nth_id(s, 1 + inner.count), 0)),
            ];
            assert(all_satisfy(tail, p)) by {
                assert forall|i: int| 0 <= i < tail.len() implies op_satisfies(#[trigger] tail[i], p) by {
                    assert(is_layout_name(tail[i].name));
                }
            }
            lemma_all_concat(inner.ops, tail, p);
            lemma_body_region_all(s, inner.ops + tail, crate::ir::dag::nth_id(s, 3 + inner.count), inner.result, p);
            assert(region.operations == body_region(s, inner.ops + tail, crate::ir::dag::nth_id(s, 3 + inner.count), inner.result).operations);
            let first = e.ops[0];
            assert(is_layout_name(first.name));
            assert(first.regions == seq![region]);
            lemma_one_region(first, p);
            assert forall|i: int| 0 <= i < e.ops.len() implies op_satisfies(#[trigger] e.ops[i], p) by {
                if i == 0 {
                    assert(seq![first][0] == first);
                } else {
                    assert(is_layout_name(e.ops[i].name));
                    assert(e.ops[i].regions.len() == 0);
                }
            }
        },
        None => {
            lemma_byte_order_keeps_all(s, serializer, order, is_serializing, body, p);
        },
    }
}


/// Laying a body out keeps what it emits: an operation of the body that
/// satisfies `p` is still there, wherever the layout nests it.
pub proof fn lemma_layout_keeps_some(
    s: usize,
    serializer: Value,
    is_serializing: bool,
    order: Option<crate::attribute::ByteOrder>,
    offset: Option<u64>,
    alignment: Option<u64>,
    round: Option<u64>,
    body: FieldBody,
    p: spec_fn(OperationView) -> bool,
)
    requires
        body_has(body, p),
    ensures
        some_satisfies(
            field_layout_emission(s, serializer, is_serializing, order, offset, alignment, round, body).ops,
            p,
        ),
{
    let o = offset_emission(s, serializer, offset, is_serializing);
    let a = alignment_emission(nth_id(s, o.count), serializer, alignment, is_serializing);
    let rs = nth_id(s, o.count + a.count);
    let r = rounding_emission(rs, serializer, round, is_serializing, order, body);
    match round {
        Some(rd) => {
            let inner = byte_order_emission(nth_id(rs, 1), result_of(rs, 0), order, is_serializing, body);
            lemma_byte_order_keeps_some(nth_id(rs, 1), result_of(rs, 0), order, is_serializing, body, p);
            let tail = seq![
                crate::ops::serialization::align_shape(nth_id(rs, 1 + inner.count), result_of(rs, 0), rd, is_serializing),
                crate::ops::language::try_shape(nth_id(rs, 2 + inner.count), result_of(nth_id(rs, 1 + inner.count), 0)),
            ];
            lemma_some_concat(inner.ops, tail, p);
            lemma_body_region_some(rs, inner.ops + tail, nth_id(rs, 3 + inner.count), inner.result, p);
            let first = r.ops[0];
            assert(first.regions == seq![rounded_region(rs, inner, rd, is_serializing)]);
            lemma_some_in_region(first, p);
            assert(seq![first][0] == first);
            assert(op_has(r.ops[0], p));
        },
        None => {
            lemma_byte_order_keeps_some(rs, serializer, order, is_serializing, body, p);
        },
    }
    lemma_some_concat(o.ops + a.ops, r.ops, p);
}

proof fn lemma_byte_order_keeps_some(
    s: usize,
    serializer: Value,
    order: Option<crate::attribute::ByteOrder>,
    is_serializing: bool,
    body: FieldBody,
    p: spec_fn(OperationView) -> bool,
)
    requires
        body_has(body, p),
    ensures
        some_satisfies(byte_order_emission(s, serializer, order, is_serializing, body).ops, p),
{
    match order {
        Some(o) => {
            let b = body_emission(body, nth_id(s, 1), result_of(s, 0));
            let y = nth_id(s, 1 + b.count);
            assert(some_satisfies(b.ops, p));
            lemma_body_region_some(s, b.ops, y, b.result, p);
            let op = byte_order_emission(s, serializer, order, is_serializing, body).ops[0];
            lemma_some_in_region(op, p);
            assert(byte_order_emission(s, serializer, order, is_serializing, body).ops =~= seq![op]);
        },
        None => {
            assert(some_satisfies(body_emission(body, s, serializer).ops, p));
        },
    }
}

//------------------------------------------------------------------------------
// Names of operations.
//------------------------------------------------------------------------------

proof fn lemma_names_differ()
    ensures
        !is_layout_name("pack_bit_field"@),
        !is_layout_name("unpack_bit_field"@),
        !is_layout_name("deserialize_items_by_len"@),
        "symref"@ != "pack_bit_field"@,
        "len"@ != "pack_bit_field"@,
        "try"@ != "pack_bit_field"@,
        "ref"@ != "pack_bit_field"@,
        "items"@ != "pack_bit_field"@,
        "empty_bit_field"@ != "pack_bit_field"@,
        "serialize_object"@ != "pack_bit_field"@,
        "deserialize_object"@ != "unpack_bit_field"@,
        "try"@ != "unpack_bit_field"@,
        "symref"@ != "deserialize_items_by_len"@,
        "deserialize_items_by_byte_count"@ != "deserialize_items_by_len"@,
        "deserialize_object"@ != "deserialize_items_by_len"@,
        "symref"@ != "deserialize_items_by_byte_count"@,
        "deserialize_items_by_len"@ != "deserialize_items_by_byte_count"@,
{
    reveal_strlit("pack_bit_field");
    reveal_strlit("unpack_bit_field");
    reveal_strlit("deserialize_items_by_len");
    reveal_strlit("deserialize_items_by_byte_count");
    reveal_strlit("symref");
    reveal_strlit("len");
    reveal_strlit("try");
    reveal_strlit("ref");
    reveal_strlit("items");
    reveal_strlit("empty_bit_field");
    reveal_strlit("serialize_object");
    reveal_strlit("deserialize_object");
    reveal_strlit("pad");
    reveal_strlit("align");
    reveal_strlit("byte_order");
    reveal_strlit("serialize_composite");
    reveal_strlit("deserialize_composite");
    reveal_strlit("member");
    reveal_strlit("ok");
    reveal_strlit("yield");
    assert("pack_bit_field"@.len() == 14);
    assert("unpack_bit_field"@.len() == 16);
    assert("pad"@[0] == 'p' && "align"@.len() == 5 && "try"@[0] == 't');
    assert("byte_order"@.len() == 10 && "serialize_composite"@.len() == 19);
    assert("deserialize_composite"@.len() == 21 && "member"@.len() == 6 && "ok"@.len() == 2);
    assert("yield"@.len() == 5 && "pad"@.len() == 3 && "try"@.len() == 3);
    assert("deserialize_items_by_len"@.len() == 24 && "deserialize_items_by_byte_count"@.len() == 31);
    assert("symref"@.len() == 6 && "len"@.len() == 3 && "ref"@.len() == 3 && "items"@.len() == 5);
    assert("empty_bit_field"@.len() == 15 && "serialize_object"@.len() == 16);
    assert("deserialize_object"@.len() == 18);
}

//------------------------------------------------------------------------------
// Packing bit fields keeps their bit numbering.
//------------------------------------------------------------------------------

/// A `pack_bit_field` operation places its bits by the numbering `b`.
pub open spec fn packs_with(b: BitNumbering) -> spec_fn(OperationView) -> bool {
    |op: OperationView| op.name == "pack_bit_field"@ ==> op.attributes.len() == 2 && op.attributes[1]
        == bit_numbering_text(b)
}

/// A `pack_bit_field` operation packs the bits `range` by the numbering `b`.
pub open spec fn packs_bits(range: Seq<char>, b: BitNumbering) -> spec_fn(OperationView) -> bool {
    |op: OperationView| op.name == "pack_bit_field"@ && op.attributes == seq![range, bit_numbering_text(b)]
}

proof fn lemma_transform_packs_with(s: usize, serializer: Value, value: Value, ty: Seq<char>, transform: crate::attribute::Transform, b: BitNumbering)
    ensures
        all_satisfy(transform_emission(s, serializer, value, ty, transform).ops, packs_with(b)),
{
    lemma_names_differ();
    let ops = transform_emission(s, serializer, value, ty, transform).ops;
    assert forall|i: int| 0 <= i < ops.len() implies op_satisfies(#[trigger] ops[i], packs_with(b)) by {
        assert(ops[i].regions.len() == 0);
        assert(ops[i].name != "pack_bit_field"@);
    }
}

proof fn lemma_pack_members_packs_with(
    s: usize,
    serializer: Value,
    bit_field: Value,
    members: Seq<BitFieldMember>,
    b: BitNumbering,
    k: int,
)
    ensures
        all_satisfy(pack_members_emission(s, serializer, bit_field, members, b, k).ops, packs_with(b)),
    decreases k,
{
    if k > 0 {
        lemma_names_differ();
        let prev = pack_members_emission(s, serializer, bit_field, members, b, k - 1);
        lemma_pack_members_packs_with(s, serializer, bit_field, members, b, k - 1);
        let t0 = nth_id(s, prev.count);
        let m = members[k - 1];
        let step = pack_member_emission(t0, serializer, prev.result, m, b);
        let t = transform_emission(nth_id(t0, 1), serializer, result_of(t0, 0), m.ty@, m.transform);
        lemma_transform_packs_with(nth_id(t0, 1), serializer, result_of(t0, 0), m.ty@, m.transform, b);
        let head = seq![crate::ops::language::symref_shape(t0, crate::attribute::member_ident(m.member))];
        let tail = seq![
            crate::ops::bit_field::pack_bit_field_shape(nth_id(t0, 1 + t.count), t.result, prev.result, m.bits.start, m.bits.end, b),
            crate::ops::language::try_shape(nth_id(t0, 2 + t.count), result_of(nth_id(t0, 1 + t.count), 0)),
        ];
        assert(all_satisfy(head, packs_with(b))) by {
            lemma_leaf(head[0], packs_with(b));
            assert(seq![head[0]] =~= head);
        }
        assert(all_satisfy(tail, packs_with(b))) by {
            assert forall|i: int| 0 <= i < tail.len() implies op_satisfies(#[trigger] tail[i], packs_with(b)) by {
                assert(tail[i].regions.len() == 0);
            }
        }
        lemma_all_concat(head, t.ops, packs_with(b));
        lemma_all_concat(head + t.ops, tail, packs_with(b));
        assert(step.ops == head + t.ops + tail);
        lemma_all_concat(prev.ops, step.ops, packs_with(b));
    }
}

proof fn lemma_pack_members_has(
    s: usize,
    serializer: Value,
    bit_field: Value,
    members: Seq<BitFieldMember>,
    b: BitNumbering,
    k: int,
    j: int,
)
    requires
        0 <= j < k <= members.len(),
    ensures
        some_satisfies(
            pack_members_emission(s, serializer, bit_field, members, b, k).ops,
            packs_bits(crate::attribute::range_text(members[j].bits.start, members[j].bits.end), b),
        ),
    decreases k,
{
    let p = packs_bits(crate::attribute::range_text(members[j].bits.start, members[j].bits.end), b);
    let prev = pack_members_emission(s, serializer, bit_field, members, b, k - 1);
    let t0 = nth_id(s, prev.count);
    let m = members[k - 1];
    let step = pack_member_emission(t0, serializer, prev.result, m, b);
    if j < k - 1 {
        lemma_pack_members_has(s, serializer, bit_field, members, b, k - 1, j);
        lemma_some_concat(prev.ops, step.ops, p);
    } else {
        let t = transform_emission(nth_id(t0, 1), serializer, result_of(t0, 0), m.ty@, m.transform);
        let i: int = 1 + t.ops.len() as int;
        assert(step.ops[i].name == "pack_bit_field"@);
        assert(p(step.ops[i]));
        assert(op_has(step.ops[i], p));
        lemma_some_concat(prev.ops, step.ops, p);
    }
}

proof fn lemma_serialize_bits_body(ty: String, b: BitNumbering, members: Vec<BitFieldMember>)
    ensures
        holds_for_body(FieldBody::SerializeBits { ty: &ty, bit_numbering: b, members: &members }, packs_with(b)),
        forall|j: int| 0 <= j < members@.len() ==> body_has(
            FieldBody::SerializeBits { ty: &ty, bit_numbering: b, members: &members },
            #[trigger] packs_bits(crate::attribute::range_text(members@[j].bits.start, members@[j].bits.end), b),
        ),
{
    let body = FieldBody::SerializeBits { ty: &ty, bit_numbering: b, members: &members };
    lemma_names_differ();
    assert forall|t: usize, x: Value| all_satisfy(#[trigger] body_emission(body, t, x).ops, packs_with(b)) by {
        let e = serialize_bits_emission(t, x, ty@, b, members@);
        let pm = pack_members_emission(nth_id(t, 1), x, result_of(t, 0), members@, b, members@.len() as int);
        lemma_pack_members_packs_with(nth_id(t, 1), x, result_of(t, 0), members@, b, members@.len() as int);
        let head = seq![crate::ops::bit_field::empty_bit_field_shape(t, ty@)];
        let tail = e.ops.subrange(1 + pm.ops.len() as int, e.ops.len() as int);
        assert(e.ops == head + pm.ops + tail);
        assert(all_satisfy(head, packs_with(b))) by {
            lemma_leaf(head[0], packs_with(b));
            assert(seq![head[0]] =~= head);
        }
        assert(all_satisfy(tail, packs_with(b))) by {
            assert forall|i: int| 0 <= i < tail.len() implies op_satisfies(#[trigger] tail[i], packs_with(b)) by {
                assert(tail[i].regions.len() == 0);
            }
        }
        lemma_all_concat(head, pm.ops, packs_with(b));
        lemma_all_concat(head + pm.ops, tail, packs_with(b));
    }
    assert forall|j: int| 0 <= j < members@.len() implies body_has(
        body,
        #[trigger] packs_bits(crate::attribute::range_text(members@[j].bits.start, members@[j].bits.end), b),
    ) by {
        let p = packs_bits(crate::attribute::range_text(members@[j].bits.start, members@[j].bits.end), b);
        assert forall|t: usize, x: Value| some_satisfies(#[trigger] body_emission(body, t, x).ops, p) by {
            let e = serialize_bits_emission(t, x, ty@, b, members@);
            let pm = pack_members_emission(nth_id(t, 1), x, result_of(t, 0), members@, b, members@.len() as int);
            lemma_pack_members_has(nth_id(t, 1), x, result_of(t, 0), members@, b, members@.len() as int, j);
            let head = seq![crate::ops::bit_field::empty_bit_field_shape(t, ty@)];
            let tail = e.ops.subrange(1 + pm.ops.len() as int, e.ops.len() as int);
            assert(e.ops == head + pm.ops + tail);
            lemma_some_concat(head, pm.ops, p);
            lemma_some_concat(head + pm.ops, tail, p);
        }
    }
}

/// Serializing a bit field packs every member, and packs it by the bit
/// field's own bit numbering: each `pack_bit_field` operation emitted,
/// wherever the layout nests it, carries that numbering, and each member's
/// bits are packed by one of them.
pub proof fn law_bit_field_packs_by_its_numbering(field: Field, s: usize, serializer: Value, use_padding: bool)
    ensures
        match field {
            Field::Bit { bit_numbering, members, .. } => {
                &&& all_satisfy(serialize_field_emission(field, s, serializer, use_padding).ops, packs_with(bit_numbering))
                &&& forall|j: int| 0 <= j < members@.len() ==> some_satisfies(
                    serialize_field_emission(field, s, serializer, use_padding).ops,
                    #[trigger] packs_bits(crate::attribute::range_text(members@[j].bits.start, members@[j].bits.end), bit_numbering),
                )
            },
            _ => true,
        },
{
    if let Field::Bit { ty, bit_numbering, layout_properties, members, .. } = field {
        let layout = crate::structure::field::padded_layout(layout_properties, use_padding);
        let body = FieldBody::SerializeBits { ty: &ty, bit_numbering, members: &members };
        lemma_serialize_bits_body(ty, bit_numbering, members);
        lemma_names_differ();
        assert(holds_for_layout(packs_with(bit_numbering)));
        lemma_layout_keeps_all(s, serializer, true, layout.byte_order, layout.offset, layout.align, layout.round, body, packs_with(bit_numbering));
        assert forall|j: int| 0 <= j < members@.len() implies some_satisfies(
            serialize_field_emission(field, s, serializer, use_padding).ops,
            #[trigger] packs_bits(crate::attribute::range_text(members@[j].bits.start, members@[j].bits.end), bit_numbering),
        ) by {
            let p = packs_bits(crate::attribute::range_text(members@[j].bits.start, members@[j].bits.end), bit_numbering);
            assert(body_has(body, p));
            lemma_layout_keeps_some(s, serializer, true, layout.byte_order, layout.offset, layout.align, layout.round, body, p);
        }
    }
}


//------------------------------------------------------------------------------
// Unpacking bit fields keeps their bit numbering.
//------------------------------------------------------------------------------

/// An `unpack_bit_field` operation reads its bits by the numbering `b`.
pub open spec fn unpacks_with(b: BitNumbering) -> spec_fn(OperationView) -> bool {
    |op: OperationView| op.name == "unpack_bit_field"@ ==> op.attributes.len() == 3 && op.attributes[2]
        == bit_numbering_text(b)
}

/// An `unpack_bit_field` operation reads a value of type `ty` from the bits
/// `range` by the numbering `b`.
pub open spec fn unpacks_bits(ty: Seq<char>, range: Seq<char>, b: BitNumbering) -> spec_fn(OperationView) -> bool {
    |op: OperationView| op.name == "unpack_bit_field"@ && op.attributes == seq![ty, range, bit_numbering_text(b)]
}

proof fn lemma_unpack_members(s: usize, bit_field: Value, members: Seq<BitFieldMember>, b: BitNumbering, k: int)
    requires
        0 <= k <= members.len(),
    ensures
        unpack_members_emission(s, bit_field, members, b, k).len() == k,
        all_satisfy(unpack_members_emission(s, bit_field, members, b, k), unpacks_with(b)),
        forall|j: int| 0 <= j < k ==> (#[trigger] unpack_members_emission(s, bit_field, members, b, k)[j]).name
            == "unpack_bit_field"@ && unpack_members_emission(s, bit_field, members, b, k)[j].attributes
            == seq![members[j].ty@, crate::attribute::range_text(members[j].bits.start, members[j].bits.end), bit_numbering_text(b)],
    decreases k,
{
    if k > 0 {
        lemma_unpack_members(s, bit_field, members, b, k - 1);
        let prev = unpack_members_emission(s, bit_field, members, b, k - 1);
        let cur = unpack_members_emission(s, bit_field, members, b, k);
        assert forall|i: int| 0 <= i < cur.len() implies op_satisfies(#[trigger] cur[i], unpacks_with(b)) by {
            if i < k - 1 {
                assert(cur[i] == prev[i]);
            } else {
                assert(cur[i].regions.len() == 0);
            }
        }
        assert forall|j: int| 0 <= j < k implies (#[trigger] cur[j]).name == "unpack_bit_field"@ && cur[j].attributes
            == seq![members[j].ty@, crate::attribute::range_text(members[j].bits.start, members[j].bits.end), bit_numbering_text(b)] by {
            if j < k - 1 {
                assert(cur[j] == prev[j]);
            }
        }
    }
}

proof fn lemma_unpack_inputs(s: usize, bit_field: Value, members: Seq<BitFieldMember>, b: BitNumbering, k: int)
    requires
        0 <= k <= members.len(),
    ensures
        forall|j: int| 0 <= j < unpack_members_emission(s, bit_field, members, b, k).len() ==> (
        #[trigger] unpack_members_emission(s, bit_field, members, b, k)[j]).inputs == seq![bit_field],
    decreases k,
{
    if k > 0 {
        lemma_unpack_inputs(s, bit_field, members, b, k - 1);
        let prev = unpack_members_emission(s, bit_field, members, b, k - 1);
        let cur = unpack_members_emission(s, bit_field, members, b, k);
        assert forall|j: int| 0 <= j < cur.len() implies (#[trigger] cur[j]).inputs == seq![bit_field] by {
            if j < prev.len() {
                assert(cur[j] == prev[j]);
            }
        }
    }
}

/// Deserializing a bit field unpacks every member, by the bit field's own
/// bit numbering: each `unpack_bit_field` operation emitted carries that
/// numbering, each member is read from its bits as its type by one of them,
/// and all of them read the one checked bit field (the result of a `try`
/// before them).
pub proof fn law_bit_field_unpacks_by_its_numbering(field: Field, s: usize, deserializer: Value)
    ensures
        match field {
            Field::Bit { bit_numbering, members, .. } => {
                &&& all_satisfy(deserialize_field_emission(field, s, deserializer), unpacks_with(bit_numbering))
                &&& forall|j: int| 0 <= j < members@.len() ==> some_satisfies(
                    deserialize_field_emission(field, s, deserializer),
                    #[trigger] unpacks_bits(
                        members@[j].ty@,
                        crate::attribute::range_text(members@[j].bits.start, members@[j].bits.end),
                        bit_numbering,
                    ),
                )
                &&& exists|t: int|
                    0 <= t < deserialize_field_emission(field, s, deserializer).len()
                        && deserialize_field_emission(field, s, deserializer)[t].name == "try"@
                        && forall|i: int|
                        0 <= i < deserialize_field_emission(field, s, deserializer).len()
                            && (#[trigger] deserialize_field_emission(field, s, deserializer)[i]).name
                            == "unpack_bit_field"@ ==> t < i && deserialize_field_emission(field, s, deserializer)[i].inputs
                            == seq![result_of(deserialize_field_emission(field, s, deserializer)[t].id, 0)]
            },
            _ => true,
        },
{
    if let Field::Bit { ty, bit_numbering, layout_properties, members, .. } = field {
        let b = bit_numbering;
        let body = FieldBody::DeserializeBitField { ty: &ty };
        let not_unpack = |op: OperationView| op.name != "unpack_bit_field"@;
        lemma_names_differ();
        assert(holds_for_layout(not_unpack));
        assert forall|t: usize, x: Value| all_satisfy(#[trigger] body_emission(body, t, x).ops, not_unpack) by {
            let op = body_emission(body, t, x).ops[0];
            lemma_leaf(op, not_unpack);
            assert(body_emission(body, t, x).ops =~= seq![op]);
        }
        lemma_layout_keeps_all(s, deserializer, false, layout_properties.byte_order, layout_properties.offset,
            layout_properties.align, layout_properties.round, body, not_unpack);
        lemma_names_differ();
        assert(holds_for_layout(unpacks_with(b)));
        assert forall|t: usize, x: Value| all_satisfy(#[trigger] body_emission(body, t, x).ops, unpacks_with(b)) by {
            let op = body_emission(body, t, x).ops[0];
            lemma_leaf(op, unpacks_with(b));
            assert(body_emission(body, t, x).ops =~= seq![op]);
        }
        lemma_layout_keeps_all(s, deserializer, false, layout_properties.byte_order, layout_properties.offset,
            layout_properties.align, layout_properties.round, body, unpacks_with(b));
        let raw = layout_emission(s, deserializer, false, layout_properties, body);
        let t = nth_id(s, raw.count);
        let tr = crate::ops::language::try_shape(t, raw.result);
        lemma_leaf(tr, unpacks_with(b));
        lemma_all_concat(raw.ops, seq![tr], unpacks_with(b));
        assert(raw.ops + seq![tr] =~= raw.ops.push(tr));
        let u = unpack_members_emission(nth_id(s, raw.count + 1), result_of(t, 0), members@, b, members@.len() as int);
        lemma_unpack_members(nth_id(s, raw.count + 1), result_of(t, 0), members@, b, members@.len() as int);
        lemma_all_concat(raw.ops.push(tr), u, unpacks_with(b));
        let all = deserialize_field_emission(field, s, deserializer);
        assert(all == raw.ops.push(tr) + u);
        let ti = raw.ops.len() as int;
        assert(all[ti] == tr);
        assert forall|i: int| 0 <= i < all.len() && (#[trigger] all[i]).name == "unpack_bit_field"@ implies ti < i
            && all[i].inputs == seq![result_of(all[ti].id, 0)] by {
            if i < ti {
                assert(all[i] == raw.ops[i]);
                assert(op_satisfies(raw.ops[i], not_unpack));
            } else if i == ti {
            } else {
                let j = i - ti - 1;
                assert(all[i] == u[j]);
                lemma_unpack_inputs(nth_id(s, raw.count + 1), result_of(t, 0), members@, b, members@.len() as int);
            }
        }
        assert forall|j: int| 0 <= j < members@.len() implies some_satisfies(
            all,
            #[trigger] unpacks_bits(
                members@[j].ty@,
                crate::attribute::range_text(members@[j].bits.start, members@[j].bits.end),
                b,
            ),
        ) by {
            let p = unpacks_bits(
                members@[j].ty@,
                crate::attribute::range_text(members@[j].bits.start, members@[j].bits.end),
                b,
            );
            let i = raw.ops.len() + 1 + j;
            assert(all[i] == u[j]);
            assert(op_has(all[i], p));
        }
    }
}

//------------------------------------------------------------------------------
// Sized collections read their size from the member that holds it.
//------------------------------------------------------------------------------

/// Deserializing a collection whose byte count member `m` holds reads the
/// value of `m` and deserializes items up to that many bytes; no operation
/// reads it as a number of items.
pub proof fn law_byte_count_sized_collection(s: usize, deserializer: Value, ty: Seq<char>, m: crate::attribute::Member)
    ensures
        ({
            let ops = deserialize_value_emission(s, deserializer, ty, Transform::ByteCountBy(m)).ops;
            &&& all_satisfy(ops, |op: OperationView| op.name != "deserialize_items_by_len"@)
            &&& exists|i: int, j: int|
                0 <= i < j < ops.len() && ops[i].name == "symref"@ && ops[i].attributes == seq![member_ident(m)]
                    && ops[j].name == "deserialize_items_by_byte_count"@ && ops[j].inputs == seq![
                    deserializer,
                    result_of(ops[i].id, 0),
                ] && ops[j].attributes == seq![ty]
        }),
{
    lemma_names_differ();
    let ops = deserialize_value_emission(s, deserializer, ty, Transform::ByteCountBy(m)).ops;
    let p = |op: OperationView| op.name != "deserialize_items_by_len"@;
    assert forall|i: int| 0 <= i < ops.len() implies op_satisfies(#[trigger] ops[i], p) by {
        assert(ops[i].regions.len() == 0);
    }
    assert(ops[0].id == s);
}

/// Deserializing a collection whose length member `m` holds reads the value
/// of `m` and deserializes that many items; no operation reads it as a byte
/// count.
pub proof fn law_length_sized_collection(s: usize, deserializer: Value, ty: Seq<char>, m: crate::attribute::Member)
    ensures
        ({
            let ops = deserialize_value_emission(s, deserializer, ty, Transform::LengthBy(m)).ops;
            &&& all_satisfy(ops, |op: OperationView| op.name != "deserialize_items_by_byte_count"@)
            &&& exists|i: int, j: int|
                0 <= i < j < ops.len() && ops[i].name == "symref"@ && ops[i].attributes == seq![member_ident(m)]
                    && ops[j].name == "deserialize_items_by_len"@ && ops[j].inputs == seq![
                    deserializer,
                    result_of(ops[i].id, 0),
                ] && ops[j].attributes == seq![ty]
        }),
{
    lemma_names_differ();
    let ops = deserialize_value_emission(s, deserializer, ty, Transform::LengthBy(m)).ops;
    let p = |op: OperationView| op.name != "deserialize_items_by_byte_count"@;
    assert forall|i: int| 0 <= i < ops.len() implies op_satisfies(#[trigger] ops[i], p) by {
        assert(ops[i].regions.len() == 0);
    }
    assert(ops[0].id == s);
}

/// Serializing the length of member `m` measures the collection that `m`
/// names: the `len` operation takes the value of the `symref` of `m`, not
/// the field's own value.
pub proof fn law_length_measures_named_member(
    s: usize,
    serializer: Value,
    value: Value,
    ty: Seq<char>,
    m: crate::attribute::Member,
)
    ensures
        ({
            let ops = transform_emission(s, serializer, value, ty, Transform::Length(m)).ops;
            exists|i: int, j: int|
                0 <= i < j < ops.len() && ops[i].name == "symref"@ && ops[i].attributes == seq![member_ident(m)]
                    && ops[j].name == "len"@ && ops[j].inputs == seq![serializer, result_of(ops[i].id, 0)]
                    && ops[j].attributes == seq![ty]
        }),
{
    let ops = transform_emission(s, serializer, value, ty, Transform::Length(m)).ops;
    assert(ops[0].id == s);
    assert(ops[1].name == "len"@);
}


//------------------------------------------------------------------------------
// A field serialized with its padding is laid out in full.
//------------------------------------------------------------------------------

/// The layout settings of a field.
pub open spec fn layout_of(field: Field) -> crate::structure::parse::FieldLayoutProperties {
    match field {
        Field::Direct { layout_properties, .. } => layout_properties,
        Field::Bit { layout_properties, .. } => layout_properties,
    }
}

/// Serializing a field with its padding (as a struct serializes its fields)
/// lays the field out in full, whether it is a direct field or a bit field:
/// it first pads the serializer to the field's offset, aligns it to the
/// field's alignment, and serializes the field inside a composite that is
/// aligned to the field's rounding.
pub proof fn law_padded_field_is_laid_out(field: Field, s: usize, serializer: Value)
    ensures
        ({
            let ops = serialize_field_emission(field, s, serializer, true).ops;
            let lp = layout_of(field);
            &&& (lp.offset matches Some(o) ==> ops.len() > 0 && ops[0].name == "pad"@ && ops[0].inputs
                == seq![serializer] && ops[0].attributes == seq![
                crate::text::decimal(o as nat),
                crate::attribute::bool_text(true),
            ])
            &&& (lp.align matches Some(a) ==> exists|i: int|
                0 <= i < ops.len() && ops[i].name == "align"@ && ops[i].inputs == seq![serializer]
                    && ops[i].attributes == seq![
                    crate::text::decimal(a as nat),
                    crate::attribute::bool_text(true),
                ])
            &&& (lp.round matches Some(r) ==> exists|i: int, k: int|
                0 <= i < ops.len() && ops[i].name == "serialize_composite"@ && ops[i].inputs == seq![
                    serializer,
                ] && ops[i].regions.len() == 1 && 0 <= k < ops[i].regions[0].operations.len()
                    && ops[i].regions[0].operations[k].name == "align"@
                    && ops[i].regions[0].operations[k].attributes == seq![
                    crate::text::decimal(r as nat),
                    crate::attribute::bool_text(true),
                ])
        }),
{
    match field {
        Field::Direct { member, ty, transform, layout_properties } => {
            let body = FieldBody::SerializeMember { member: &member, ty: &ty, transform: &transform };
            lemma_laid_out(layout_properties, s, serializer, body);
            assert(crate::structure::field::padded_layout(layout_properties, true) == layout_properties);
            assert(serialize_field_emission(field, s, serializer, true) == layout_emission(s, serializer, true, layout_properties, body));
            let ops = serialize_field_emission(field, s, serializer, true).ops;
            assert(ops == field_layout_emission(s, serializer, true, layout_properties.byte_order, layout_properties.offset, layout_properties.align, layout_properties.round, body).ops);
            assert(layout_of(field) == layout_properties);
            let lp = layout_properties;
            assert(lp.offset matches Some(o) ==> ops.len() > 0 && ops[0].name == "pad"@ && ops[0].inputs
                == seq![serializer] && ops[0].attributes == seq![
                crate::text::decimal(o as nat),
                crate::attribute::bool_text(true),
            ]);
            assert(lp.align matches Some(a) ==> exists|i: int|
                0 <= i < ops.len() && ops[i].name == "align"@ && ops[i].inputs == seq![serializer]
                    && ops[i].attributes == seq![
                    crate::text::decimal(a as nat),
                    crate::attribute::bool_text(true),
                ]);
            assert(lp.round matches Some(r) ==> exists|i: int, k: int|
                0 <= i < ops.len() && ops[i].name == "serialize_composite"@ && ops[i].inputs == seq![
                    serializer,
                ] && ops[i].regions.len() == 1 && 0 <= k < ops[i].regions[0].operations.len()
                    && ops[i].regions[0].operations[k].name == "align"@
                    && ops[i].regions[0].operations[k].attributes == seq![
                    crate::text::decimal(r as nat),
                    crate::attribute::bool_text(true),
                ]);
        },
        Field::Bit { ty, bit_numbering, layout_properties, members, .. } => {
            let body = FieldBody::SerializeBits { ty: &ty, bit_numbering, members: &members };
            lemma_laid_out(layout_properties, s, serializer, body);
            assert(crate::structure::field::padded_layout(layout_properties, true) == layout_properties);
            assert(serialize_field_emission(field, s, serializer, true) == layout_emission(s, serializer, true, layout_properties, body));
            let ops = serialize_field_emission(field, s, serializer, true).ops;
            assert(ops == field_layout_emission(s, serializer, true, layout_properties.byte_order, layout_properties.offset, layout_properties.align, layout_properties.round, body).ops);
            assert(layout_of(field) == layout_properties);
            let lp = layout_properties;
            assert(lp.offset matches Some(o) ==> ops.len() > 0 && ops[0].name == "pad"@ && ops[0].inputs
                == seq![serializer] && ops[0].attributes == seq![
                crate::text::decimal(o as nat),
                crate::attribute::bool_text(true),
            ]);
            assert(lp.align matches Some(a) ==> exists|i: int|
                0 <= i < ops.len() && ops[i].name == "align"@ && ops[i].inputs == seq![serializer]
                    && ops[i].attributes == seq![
                    crate::text::decimal(a as nat),
                    crate::attribute::bool_text(true),
                ]);
            assert(lp.round matches Some(r) ==> exists|i: int, k: int|
                0 <= i < ops.len() && ops[i].name == "serialize_composite"@ && ops[i].inputs == seq![
                    serializer,
                ] && ops[i].regions.len() == 1 && 0 <= k < ops[i].regions[0].operations.len()
                    && ops[i].regions[0].operations[k].name == "align"@
                    && ops[i].regions[0].operations[k].attributes == seq![
                    crate::text::decimal(r as nat),
                    crate::attribute::bool_text(true),
                ]);
        },
    }
}

proof fn lemma_laid_out(lp: crate::structure::parse::FieldLayoutProperties, s: usize, serializer: Value, body: FieldBody)
    ensures
        ({
            let ops = field_layout_emission(s, serializer, true, lp.byte_order, lp.offset, lp.align, lp.round, body).ops;
            &&& (lp.offset matches Some(o) ==> ops.len() > 0 && ops[0].name == "pad"@ && ops[0].inputs
                == seq![serializer] && ops[0].attributes == seq![
                crate::text::decimal(o as nat),
                crate::attribute::bool_text(true),
            ])
            &&& (lp.align matches Some(a) ==> exists|i: int|
                0 <= i < ops.len() && ops[i].name == "align"@ && ops[i].inputs == seq![serializer]
                    && ops[i].attributes == seq![
                    crate::text::decimal(a as nat),
                    crate::attribute::bool_text(true),
                ])
            &&& (lp.round matches Some(r) ==> exists|i: int, k: int|
                0 <= i < ops.len() && ops[i].name == "serialize_composite"@ && ops[i].inputs == seq![
                    serializer,
                ] && ops[i].regions.len() == 1 && 0 <= k < ops[i].regions[0].operations.len()
                    && ops[i].regions[0].operations[k].name == "align"@
                    && ops[i].regions[0].operations[k].attributes == seq![
                    crate::text::decimal(r as nat),
                    crate::attribute::bool_text(true),
                ])
        }),
{
    let o = offset_emission(s, serializer, lp.offset, true);
    let a = alignment_emission(nth_id(s, o.count), serializer, lp.align, true);
    let rs = nth_id(s, o.count + a.count);
    let r = rounding_emission(rs, serializer, lp.round, true, lp.byte_order, body);
    let ops = field_layout_emission(s, serializer, true, lp.byte_order, lp.offset, lp.align, lp.round, body).ops;
    assert(ops == o.ops + a.ops + r.ops);
    if let Some(off) = lp.offset {
        assert(ops[0] == o.ops[0]);
    }
    if let Some(al) = lp.align {
        let i = o.ops.len() as int;
        assert(ops[i] == a.ops[0]);
    }
    if let Some(rd) = lp.round {
        let i = (o.ops.len() + a.ops.len()) as int;
        assert(ops[i] == r.ops[0]);
        let inner = byte_order_emission(nth_id(rs, 1), result_of(rs, 0), lp.byte_order, true, body);
        let region = rounded_region(rs, inner, rd, true);
        let k = inner.ops.len() as int;
        assert(ops[i].regions == seq![region]);
        let tail = seq![
            crate::ops::serialization::align_shape(nth_id(rs, 1 + inner.count), result_of(rs, 0), rd, true),
            crate::ops::language::try_shape(nth_id(rs, 2 + inner.count), result_of(nth_id(rs, 1 + inner.count), 0)),
        ];
        assert(region.operations == (inner.ops + tail).push(yield_shape(nth_id(rs, 3 + inner.count), seq![inner.result])));
        assert(region.operations[k] == tail[0]);
        assert(ops[i].regions[0].operations[k].name == "align"@);
        assert(ops[i].name == "serialize_composite"@);
    }
}


//------------------------------------------------------------------------------
// A field keeps its byte order, with or without its padding.
//------------------------------------------------------------------------------

/// A `byte_order` operation that sets the byte order `o` for serializing.
pub open spec fn sets_byte_order(o: crate::attribute::ByteOrder) -> spec_fn(OperationView) -> bool {
    |op: OperationView| op.name == "byte_order"@ && op.attributes == seq![
        crate::attribute::byte_order_text(o),
        crate::attribute::bool_text(true),
    ]
}

proof fn lemma_keeps_byte_order(
    s: usize,
    serializer: Value,
    lp: crate::structure::parse::FieldLayoutProperties,
    body: FieldBody,
)
    ensures
        lp.byte_order matches Some(o) ==> some_satisfies(
            field_layout_emission(s, serializer, true, lp.byte_order, lp.offset, lp.align, lp.round, body).ops,
            sets_byte_order(o),
        ),
{
    if let Some(bo) = lp.byte_order {
        let p = sets_byte_order(bo);
        let o = offset_emission(s, serializer, lp.offset, true);
        let a = alignment_emission(nth_id(s, o.count), serializer, lp.align, true);
        let rs = nth_id(s, o.count + a.count);
        let r = rounding_emission(rs, serializer, lp.round, true, lp.byte_order, body);
        match lp.round {
            Some(rd) => {
                let inner = byte_order_emission(nth_id(rs, 1), result_of(rs, 0), lp.byte_order, true, body);
                assert(op_has(inner.ops[0], p));
                let tail = seq![
                    crate::ops::serialization::align_shape(nth_id(rs, 1 + inner.count), result_of(rs, 0), rd, true),
                    crate::ops::language::try_shape(nth_id(rs, 2 + inner.count), result_of(nth_id(rs, 1 + inner.count), 0)),
                ];
                lemma_some_concat(inner.ops, tail, p);
                lemma_body_region_some(rs, inner.ops + tail, nth_id(rs, 3 + inner.count), inner.result, p);
                let first = r.ops[0];
                assert(first.regions == seq![rounded_region(rs, inner, rd, true)]);
                lemma_some_in_region(first, p);
                assert(seq![first][0] == first);
                assert(op_has(r.ops[0], p));
            },
            None => {
                assert(op_has(r.ops[0], p));
            },
        }
        lemma_some_concat(o.ops + a.ops, r.ops, p);
    }
}

/// Serializing a field sets the field's byte order around its body, with or
/// without the field's padding, whether it is a direct field or a bit field.
pub proof fn law_field_keeps_byte_order(field: Field, s: usize, serializer: Value, use_padding: bool)
    ensures
        layout_of(field).byte_order matches Some(o) ==> some_satisfies(
            serialize_field_emission(field, s, serializer, use_padding).ops,
            sets_byte_order(o),
        ),
{
    match field {
        Field::Direct { member, ty, transform, layout_properties } => {
            let body = FieldBody::SerializeMember { member: &member, ty: &ty, transform: &transform };
            let lp = crate::structure::field::padded_layout(layout_properties, use_padding);
            lemma_keeps_byte_order(s, serializer, lp, body);
            assert(serialize_field_emission(field, s, serializer, use_padding) == layout_emission(s, serializer, true, lp, body));
        },
        Field::Bit { ty, bit_numbering, layout_properties, members, .. } => {
            let body = FieldBody::SerializeBits { ty: &ty, bit_numbering, members: &members };
            let lp = crate::structure::field::padded_layout(layout_properties, use_padding);
            lemma_keeps_byte_order(s, serializer, lp, body);
            assert(serialize_field_emission(field, s, serializer, use_padding) == layout_emission(s, serializer, true, lp, body));
        },
    }
}


//------------------------------------------------------------------------------
// A field serialized without its padding is laid out by its byte order only.
//------------------------------------------------------------------------------

/// An operation that neither pads, aligns nor opens a composite.
pub open spec fn pads_nothing() -> spec_fn(OperationView) -> bool {
    |op: OperationView| op.name != "pad"@ && op.name != "align"@ && op.name != "serialize_composite"@
}

/// The names of the operations that serialize a field's body.
pub open spec fn is_body_name(name: Seq<char>) -> bool {
    ||| name == "symref"@
    ||| name == "len"@
    ||| name == "try"@
    ||| name == "ref"@
    ||| name == "items"@
    ||| name == "pack_bit_field"@
    ||| name == "empty_bit_field"@
    ||| name == "serialize_object"@
}

proof fn lemma_names_not_padding()
    ensures
        "byte_order"@ != "pad"@ && "byte_order"@ != "align"@ && "byte_order"@ != "serialize_composite"@,
        "yield"@ != "pad"@ && "yield"@ != "align"@ && "yield"@ != "serialize_composite"@,
        forall|op: OperationView| is_body_name(op.name) ==> #[trigger] pads_nothing()(op),
{
    reveal_strlit("pad");
    reveal_strlit("align");
    reveal_strlit("serialize_composite");
    reveal_strlit("symref");
    reveal_strlit("len");
    reveal_strlit("try");
    reveal_strlit("ref");
    reveal_strlit("items");
    reveal_strlit("pack_bit_field");
    reveal_strlit("empty_bit_field");
    reveal_strlit("serialize_object");
    reveal_strlit("byte_order");
    reveal_strlit("yield");
    assert("pad"@.len() == 3 && "pad"@[0] == 'p');
    assert("align"@.len() == 5 && "align"@[0] == 'a');
    assert("serialize_composite"@.len() == 19);
    assert("symref"@.len() == 6 && "len"@.len() == 3 && "len"@[0] == 'l');
    assert("try"@.len() == 3 && "try"@[0] == 't' && "ref"@.len() == 3 && "ref"@[0] == 'r');
    assert("items"@.len() == 5 && "items"@[0] == 'i');
    assert("pack_bit_field"@.len() == 14 && "empty_bit_field"@.len() == 15);
    assert("serialize_object"@.len() == 16 && "byte_order"@.len() == 10 && "yield"@.len() == 5);
    assert("yield"@[0] == 'y');
}

proof fn lemma_transform_pads_nothing(s: usize, serializer: Value, value: Value, ty: Seq<char>, transform: Transform)
    ensures
        all_satisfy(transform_emission(s, serializer, value, ty, transform).ops, pads_nothing()),
{
    lemma_names_not_padding();
    let ops = transform_emission(s, serializer, value, ty, transform).ops;
    assert forall|i: int| 0 <= i < ops.len() implies op_satisfies(#[trigger] ops[i], pads_nothing()) by {
        assert(ops[i].regions.len() == 0);
        assert(is_body_name(ops[i].name));
    }
}

proof fn lemma_pack_members_pads_nothing(
    s: usize,
    serializer: Value,
    bit_field: Value,
    members: Seq<BitFieldMember>,
    b: BitNumbering,
    k: int,
)
    ensures
        all_satisfy(pack_members_emission(s, serializer, bit_field, members, b, k).ops, pads_nothing()),
    decreases k,
{
    if k > 0 {
        lemma_names_not_padding();
        let p = pads_nothing();
        let prev = pack_members_emission(s, serializer, bit_field, members, b, k - 1);
        lemma_pack_members_pads_nothing(s, serializer, bit_field, members, b, k - 1);
        let t0 = nth_id(s, prev.count);
        let m = members[k - 1];
        let step = pack_member_emission(t0, serializer, prev.result, m, b);
        let t = transform_emission(nth_id(t0, 1), serializer, result_of(t0, 0), m.ty@, m.transform);
        lemma_transform_pads_nothing(nth_id(t0, 1), serializer, result_of(t0, 0), m.ty@, m.transform);
        let head = seq![crate::ops::language::symref_shape(t0, member_ident(m.member))];
        let tail = seq![
            crate::ops::bit_field::pack_bit_field_shape(nth_id(t0, 1 + t.count), t.result, prev.result, m.bits.start, m.bits.end, b),
            crate::ops::language::try_shape(nth_id(t0, 2 + t.count), result_of(nth_id(t0, 1 + t.count), 0)),
        ];
        assert(all_satisfy(head, p)) by {
            assert(is_body_name(head[0].name));
            lemma_leaf(head[0], p);
            assert(seq![head[0]] =~= head);
        }
        assert(all_satisfy(tail, p)) by {
            assert forall|i: int| 0 <= i < tail.len() implies op_satisfies(#[trigger] tail[i], p) by {
                assert(tail[i].regions.len() == 0);
                assert(is_body_name(tail[i].name));
            }
        }
        lemma_all_concat(head, t.ops, p);
        lemma_all_concat(head + t.ops, tail, p);
        assert(step.ops == head + t.ops + tail);
        lemma_all_concat(prev.ops, step.ops, p);
    }
}

proof fn lemma_body_pads_nothing(body: FieldBody)
    requires
        body is SerializeMember || body is SerializeBits,
    ensures
        holds_for_body(body, pads_nothing()),
{
    lemma_names_not_padding();
    let p = pads_nothing();
    assert forall|t: usize, x: Value| all_satisfy(#[trigger] body_emission(body, t, x).ops, p) by {
        match body {
            FieldBody::SerializeMember { member, ty, transform } => {
                let e = crate::structure::field::serialize_member_emission(t, x, *member, ty@, *transform);
                let tr = transform_emission(nth_id(t, 1), x, result_of(t, 0), ty@, *transform);
                lemma_transform_pads_nothing(nth_id(t, 1), x, result_of(t, 0), ty@, *transform);
                let head = seq![e.ops[0]];
                let tail = seq![e.ops[e.ops.len() - 1]];
                assert(e.ops == head + tr.ops + tail);
                assert(all_satisfy(head, p)) by {
                    assert(is_body_name(head[0].name));
                    lemma_leaf(head[0], p);
                }
                assert(all_satisfy(tail, p)) by {
                    assert(is_body_name(tail[0].name));
                    lemma_leaf(tail[0], p);
                }
                lemma_all_concat(head, tr.ops, p);
                lemma_all_concat(head + tr.ops, tail, p);
            },
            FieldBody::SerializeBits { ty, bit_numbering, members } => {
                let e = serialize_bits_emission(t, x, ty@, bit_numbering, members@);
                let pm = pack_members_emission(nth_id(t, 1), x, result_of(t, 0), members@, bit_numbering, members@.len() as int);
                lemma_pack_members_pads_nothing(nth_id(t, 1), x, result_of(t, 0), members@, bit_numbering, members@.len() as int);
                let head = seq![e.ops[0]];
                let tail = e.ops.subrange(1 + pm.ops.len() as int, e.ops.len() as int);
                assert(e.ops == head + pm.ops + tail);
                assert(all_satisfy(head, p)) by {
                    assert(is_body_name(head[0].name));
                    lemma_leaf(head[0], p);
                }
                assert(all_satisfy(tail, p)) by {
                    assert forall|i: int| 0 <= i < tail.len() implies op_satisfies(#[trigger] tail[i], p) by {
                        assert(tail[i].regions.len() == 0);
                        assert(is_body_name(tail[i].name));
                    }
                }
                lemma_all_concat(head, pm.ops, p);
                lemma_all_concat(head + pm.ops, tail, p);
            },
            _ => {},
        }
    }
}

/// Serializing a field without its padding (as a bit field member's own
/// layout is not laid out twice) neither pads, aligns nor rounds it, at any
/// depth: only its byte order is kept.
pub proof fn law_unpadded_field_is_not_padded(field: Field, s: usize, serializer: Value)
    ensures
        all_satisfy(serialize_field_emission(field, s, serializer, false).ops, pads_nothing()),
{
    lemma_names_not_padding();
    let p = pads_nothing();
    assert(holds_for_wrapping(p));
    match field {
        Field::Direct { member, ty, transform, layout_properties } => {
            let body = FieldBody::SerializeMember { member: &member, ty: &ty, transform: &transform };
            let lp = crate::structure::field::padded_layout(layout_properties, false);
            lemma_body_pads_nothing(body);
            lemma_byte_order_keeps_all(s, serializer, lp.byte_order, true, body, p);
            assert(serialize_field_emission(field, s, serializer, false).ops
                == byte_order_emission(s, serializer, lp.byte_order, true, body).ops);
        },
        Field::Bit { ty, bit_numbering, layout_properties, members, .. } => {
            let body = FieldBody::SerializeBits { ty: &ty, bit_numbering, members: &members };
            let lp = crate::structure::field::padded_layout(layout_properties, false);
            lemma_body_pads_nothing(body);
            lemma_byte_order_keeps_all(s, serializer, lp.byte_order, true, body, p);
            assert(serialize_field_emission(field, s, serializer, false).ops
                == byte_order_emission(s, serializer, lp.byte_order, true, body).ops);
        },
    }
}


//------------------------------------------------------------------------------
// Each member is packed from its own value.
//------------------------------------------------------------------------------

/// In `ops`, the member `m` is read by a `symref` and packed into the bits
/// `range` by the numbering `b` after it; when its value is serialized
/// unchanged, the packing takes exactly that value.
pub open spec fn packs_member(ops: Seq<OperationView>, m: BitFieldMember, b: BitNumbering) -> bool {
    exists|i: int, k: int|
        0 <= i < k < ops.len() && (#[trigger] ops[i]).name == "symref"@ && ops[i].attributes == seq![member_ident(m.member)]
            && (#[trigger] ops[k]).name == "pack_bit_field"@ && ops[k].attributes == seq![
            crate::attribute::range_text(m.bits.start, m.bits.end),
            bit_numbering_text(b),
        ] && (m.transform is Unchanged ==> ops[k].inputs[0] == result_of(ops[i].id, 0))
}

proof fn lemma_pack_members_read_members(
    s: usize,
    serializer: Value,
    bit_field: Value,
    members: Seq<BitFieldMember>,
    b: BitNumbering,
    k: int,
)
    requires
        0 <= k <= members.len(),
    ensures
        forall|j: int| 0 <= j < k ==> packs_member(
            pack_members_emission(s, serializer, bit_field, members, b, k).ops,
            #[trigger] members[j],
            b,
        ),
    decreases k,
{
    if k > 0 {
        lemma_pack_members_read_members(s, serializer, bit_field, members, b, k - 1);
        let prev = pack_members_emission(s, serializer, bit_field, members, b, k - 1);
        let t0 = nth_id(s, prev.count);
        let m = members[k - 1];
        let step = pack_member_emission(t0, serializer, prev.result, m, b);
        let all = pack_members_emission(s, serializer, bit_field, members, b, k).ops;
        assert(all == prev.ops + step.ops);
        assert forall|j: int| 0 <= j < k implies packs_member(all, #[trigger] members[j], b) by {
            if j < k - 1 {
                assert(packs_member(prev.ops, members[j], b));
                let (i, q) = choose|i: int, q: int|
                    0 <= i < q < prev.ops.len() && (#[trigger] prev.ops[i]).name == "symref"@ && prev.ops[i].attributes
                        == seq![member_ident(members[j].member)] && (#[trigger] prev.ops[q]).name
                        == "pack_bit_field"@ && prev.ops[q].attributes == seq![
                        crate::attribute::range_text(members[j].bits.start, members[j].bits.end),
                        bit_numbering_text(b),
                    ] && (members[j].transform is Unchanged ==> prev.ops[q].inputs[0] == result_of(
                        prev.ops[i].id,
                        0,
                    ));
                assert(all[i] == prev.ops[i]);
                assert(all[q] == prev.ops[q]);
            } else {
                let t = transform_emission(nth_id(t0, 1), serializer, result_of(t0, 0), m.ty@, m.transform);
                let i = prev.ops.len() as int;
                let q = i + 1 + t.ops.len() as int;
                assert(all[i] == step.ops[0]);
                assert(all[q] == step.ops[1 + t.ops.len() as int]);
                if m.transform is Unchanged {
                    assert(t.ops.len() == 0);
                    assert(t.result == result_of(t0, 0));
                }
            }
        }
    }
}

/// Serializing a bit field reads each member by its own name and packs it
/// into the member's own bits, by the bit field's numbering; a member
/// serialized unchanged is packed from exactly the value read.
pub proof fn law_bit_field_packs_each_member(
    s: usize,
    serializer: Value,
    ty: Seq<char>,
    b: BitNumbering,
    members: Seq<BitFieldMember>,
)
    ensures
        forall|j: int| 0 <= j < members.len() ==> packs_member(
            serialize_bits_emission(s, serializer, ty, b, members).ops,
            #[trigger] members[j],
            b,
        ),
{
    let pm = pack_members_emission(nth_id(s, 1), serializer, result_of(s, 0), members, b, members.len() as int);
    lemma_pack_members_read_members(nth_id(s, 1), serializer, result_of(s, 0), members, b, members.len() as int);
    let all = serialize_bits_emission(s, serializer, ty, b, members).ops;
    assert forall|j: int| 0 <= j < members.len() implies packs_member(all, #[trigger] members[j], b) by {
        assert(packs_member(pm.ops, members[j], b));
        let (i, q) = choose|i: int, q: int|
            0 <= i < q < pm.ops.len() && (#[trigger] pm.ops[i]).name == "symref"@ && pm.ops[i].attributes
                == seq![member_ident(members[j].member)] && (#[trigger] pm.ops[q]).name
                == "pack_bit_field"@ && pm.ops[q].attributes == seq![
                crate::attribute::range_text(members[j].bits.start, members[j].bits.end),
                bit_numbering_text(b),
            ] && (members[j].transform is Unchanged ==> pm.ops[q].inputs[0] == result_of(pm.ops[i].id, 0));
        assert(all[i + 1] == pm.ops[i]);
        assert(all[q + 1] == pm.ops[q]);
    }
}


//------------------------------------------------------------------------------
// A direct field serializes its own member.
//------------------------------------------------------------------------------

/// Serializing a direct field reads the field's own member first and ends
/// by serializing, on the serializer, what its transform makes of it: the
/// value read itself when it is serialized unchanged.
pub proof fn law_direct_field_serializes_its_member(
    s: usize,
    serializer: Value,
    member: crate::attribute::Member,
    ty: Seq<char>,
    transform: Transform,
)
    ensures
        ({
            let ops = crate::structure::field::serialize_member_emission(s, serializer, member, ty, transform).ops;
            &&& ops.len() >= 2
            &&& ops[0].name == "symref"@
            &&& ops[0].attributes == seq![member_ident(member)]
            &&& ops.last().name == "serialize_object"@
            &&& ops.last().inputs[0] == serializer
            &&& (transform is Unchanged ==> ops.last().inputs == seq![serializer, result_of(ops[0].id, 0)])
        }),
{
}

/// Deserializing a value that no other member sizes deserializes one object
/// of the field's type from the deserializer.
pub proof fn law_plain_value_is_one_object(s: usize, deserializer: Value, ty: Seq<char>, transform: Transform)
    requires
        !(transform is LengthBy),
        !(transform is ByteCountBy),
    ensures
        ({
            let ops = deserialize_value_emission(s, deserializer, ty, transform).ops;
            &&& ops.len() == 1
            &&& ops[0].name == "deserialize_object"@
            &&& ops[0].inputs == seq![deserializer]
            &&& ops[0].attributes == seq![ty]
        }),
{
}


/// Serializing and deserializing a bit field agree on where each member
/// lives: the member is packed into the same bits, by the same numbering,
/// as it is unpacked from, so what one writes the other reads back.
pub proof fn law_bit_field_round_trip(field: Field, s: usize, t: usize, serializer: Value, deserializer: Value, use_padding: bool)
    ensures
        match field {
            Field::Bit { bit_numbering, members, .. } => forall|j: int|
                0 <= j < members@.len() ==> {
                    &&& some_satisfies(
                        serialize_field_emission(field, s, serializer, use_padding).ops,
                        #[trigger] packs_bits(crate::attribute::range_text(members@[j].bits.start, members@[j].bits.end), bit_numbering),
                    )
                    &&& some_satisfies(
                        deserialize_field_emission(field, t, deserializer),
                        unpacks_bits(
                            members@[j].ty@,
                            crate::attribute::range_text(members@[j].bits.start, members@[j].bits.end),
                            bit_numbering,
                        ),
                    )
                },
            _ => true,
        },
{
    law_bit_field_packs_by_its_numbering(field, s, serializer, use_padding);
    law_bit_field_unpacks_by_its_numbering(field, t, deserializer);
}

} // verus!
