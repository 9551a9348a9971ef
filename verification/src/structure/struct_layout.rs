//! A struct with a layout, and how its `Serialize` and `Deserialize`
//! implementations are lowered to operations.
use vstd::prelude::*;

use crate::attribute::{member_ident, member_text, ByteOrder, Member};
use crate::ir::dag::{lemma_nth_id_add, nth_id, IdSource, Value};
use crate::ir::operation::{
    all_regions_view, lemma_all_regions_view, ops_view, region_view, OperationView, RegionView,
};
use crate::ir::region::Region;
use crate::ops::algorithm::{
    alignment_emission, body_region, lemma_body_region, offset_emission, with_maybe_alignment,
    with_maybe_offset, yield_shape,
};
use crate::ir::{ToDeserializeOp, ToSerializeOp};
use crate::ops::language::{
    bindings_text, destructure, member, member_shape, ok, ok_shape, self_, self_shape, struct_, sym, try_,
    try_shape, tuple, yield_,
};
use crate::ops::serialization::{
    byte_order, byte_order_shape, deserialize_composite, deserialize_composite_shape,
    serialize_composite, serialize_composite_shape, success, success_shape,
};
use crate::ops::trait_impl::{impl_deserialize, impl_serialize};
use crate::ops::{
    emits, lemma_emits_nothing, lemma_emits_then, lemma_emitted_op, lemma_emitted_view, nothing,
    result_of, shape, single, then, Emission,
};
use crate::structure::field::{
    deserialize_field_full, deserialize_field_results, serialize_field_emission, BitFieldMember,
    Field,
};
use crate::structure::field_group::{
    fields_before, fields_from_groups, group_fields, group_views, grouping, groups_outcome, lemma_grouping_holds_every_field, non_consecutive_message, storage_of,
    ErrorPosition, LayoutError,
};
use crate::structure::parse;
use crate::text::joined;

verus! {

/// A struct with a layout: its name and generics (as text), byte order,
/// length to pad to, size to round up to, and fields.
#[derive(PartialEq, Eq, Debug)]
pub struct Struct {
    pub ident: String,
    pub generics: String,
    pub byte_order: Option<ByteOrder>,
    pub len: Option<u64>,
    pub round: Option<u64>,
    pub fields: Vec<Field>,
}

//------------------------------------------------------------------------------
// Members.
//------------------------------------------------------------------------------

/// The struct members that a field holds.
pub open spec fn field_members(f: Field) -> Seq<Member> {
    match f {
        Field::Direct { member, .. } => seq![member],
        Field::Bit { members, .. } => members@.map_values(|m: BitFieldMember| m.member),
    }
}

/// The struct members that the first `k` fields hold, in order.
pub open spec fn struct_members(fields: Seq<Field>, k: int) -> Seq<Member>
    decreases k,
{
    if k <= 0 || k > fields.len() {
        Seq::empty()
    } else {
        struct_members(fields, k - 1) + field_members(fields[k - 1])
    }
}

/// The members of the first `k` fields are those of each field in turn:
/// every direct field gives its member, every bit field its members'.
pub proof fn lemma_members_field_by_field(fields: Seq<Field>, k: int)
    requires
        0 <= k <= fields.len(),
    ensures
        struct_members(fields, k) == fields.take(k).map_values(|f: Field| field_members(f)).flatten(),
    decreases k,
{
    let per_field = fields.take(k).map_values(|f: Field| field_members(f));
    if k == 0 {
        assert(per_field =~= Seq::<Seq<Member>>::empty());
        assert(per_field.flatten() =~= Seq::<Member>::empty());
    } else {
        lemma_members_field_by_field(fields, k - 1);
        let before = fields.take(k - 1).map_values(|f: Field| field_members(f));
        assert(per_field =~= before.push(field_members(fields[k - 1])));
        before.lemma_flatten_push(field_members(fields[k - 1]));
    }
}

/// How the destructuring of the struct binds its members: each to the
/// variable of its own name.
pub open spec fn struct_bindings_text(members: Seq<Member>) -> Seq<char> {
    joined(members.map_values(|m: Member| member_text(m) + ": "@ + member_ident(m)), ", "@)
}

//------------------------------------------------------------------------------
// What lowering a struct emits.
//------------------------------------------------------------------------------

/// Checking each of `values`, one `try` each, from identifier `s`.
pub open spec fn tries(values: Seq<Value>, s: usize) -> Emission {
    Emission {
        ops: Seq::new(values.len(), |i: int| try_shape(nth_id(s, i as nat), values[i])),
        result: result_of(s, 0),
        count: values.len(),
    }
}

/// The checked values.
pub open spec fn tried(values: Seq<Value>, s: usize) -> Seq<Value> {
    Seq::new(values.len(), |i: int| result_of(nth_id(s, i as nat), 0))
}

/// Serializing the first `k` fields one after another, and their results.
pub open spec fn fields_serialized(fields: Seq<Field>, k: int, s: usize, serializer: Value) -> (
    Emission,
    Seq<Value>,
)
    decreases k,
{
    if k <= 0 {
        (nothing(serializer), Seq::empty())
    } else {
        let (e, rs) = fields_serialized(fields, k - 1, s, serializer);
        let f = serialize_field_emission(fields[k - 1], nth_id(s, e.count), serializer, true);
        (then(e, f), rs.push(f.result))
    }
}

/// Inside the composite of a struct without fields: its success, then the
/// padding to the struct's length and its rounding.
pub open spec fn empty_body_emission(s: usize, a: Value, len: Option<u64>, round: Option<u64>) -> Emission {
    let e1 = single(success_shape(s, a));
    let e2 = then(e1, offset_emission(nth_id(s, e1.count), a, len, true));
    let e3 = then(e2, alignment_emission(nth_id(s, e2.count), a, round, true));
    Emission { ops: e3.ops, result: e1.result, count: e3.count }
}

/// Inside the composite of a struct with fields: each field serialized, each
/// result checked, the padding to the struct's length and its rounding, and
/// the tuple of the spans as success.
pub open spec fn fields_body_emission(
    fields: Seq<Field>,
    s: usize,
    a: Value,
    len: Option<u64>,
    round: Option<u64>,
) -> Emission {
    let (fe, rs) = fields_serialized(fields, fields.len() as int, s, a);
    let e2 = then(fe, tries(rs, nth_id(s, fe.count)));
    let e3 = then(e2, offset_emission(nth_id(s, e2.count), a, len, true));
    let e4 = then(e3, alignment_emission(nth_id(s, e3.count), a, round, true));
    let tu = single(
        shape(
            "tuple"@,
            nth_id(s, e4.count),
            tried(rs, nth_id(s, fe.count)),
            1,
            Seq::empty(),
            Seq::empty(),
            false,
        ),
    );
    let e5 = then(e4, tu);
    then(e5, single(ok_shape(nth_id(s, e5.count), tu.result)))
}

/// The region in which the struct's fields are serialized as a composite,
/// with identifier `r`, and how many identifiers building it takes.
pub open spec fn serialize_composite_region(
    fields: Seq<Field>,
    len: Option<u64>,
    round: Option<u64>,
    r: usize,
) -> (RegionView, nat) {
    let a = result_of(r, 0);
    let e = if fields.len() == 0 {
        empty_body_emission(nth_id(r, 1), a, len, round)
    } else {
        fields_body_emission(fields, nth_id(r, 1), a, len, round)
    };
    (body_region(r, e.ops, nth_id(r, 1 + e.count), e.result), 2 + e.count)
}

/// The struct's fields serialized as a composite on `serializer`, giving
/// back the span of the composite.
pub open spec fn serialize_composite_emission(st: Struct, s: usize, serializer: Value) -> Emission {
    let (region, rc) = serialize_composite_region(st.fields@, st.len, st.round, s);
    let c = nth_id(s, rc);
    let t = nth_id(s, rc + 1);
    let m = nth_id(s, rc + 2);
    let k = nth_id(s, rc + 3);
    Emission {
        ops: seq![
            serialize_composite_shape(c, serializer, region),
            try_shape(t, result_of(c, 0)),
            member_shape(m, result_of(t, 0), Member::Unnamed(0), false),
            ok_shape(k, result_of(m, 0)),
        ],
        result: result_of(k, 0),
        count: rc + 4,
    }
}

/// `inner` run in the byte order `order`, if any: inside a `byte_order`
/// operation whose region's argument `inner` runs on.
pub open spec fn ordered_emission(
    s: usize,
    serializer: Value,
    order: Option<ByteOrder>,
    is_serializing: bool,
    inner: spec_fn(usize, Value) -> Emission,
) -> Emission {
    match order {
        Some(o) => {
            let b = inner(nth_id(s, 1), result_of(s, 0));
            let y = nth_id(s, 1 + b.count);
            let op = nth_id(s, 2 + b.count);
            Emission {
                ops: seq![
                    byte_order_shape(
                        op,
                        serializer,
                        o,
                        is_serializing,
                        body_region(s, b.ops, y, b.result),
                    ),
                ],
                result: result_of(op, 0),
                count: 3 + b.count,
            }
        },
        None => inner(s, serializer),
    }
}

/// Serializing the struct's members: the composite, in the struct's byte
/// order.
pub open spec fn serialize_members_emission(st: Struct, s: usize, serializer: Value) -> Emission {
    ordered_emission(
        s,
        serializer,
        st.byte_order,
        true,
        |q: usize, v: Value| serialize_composite_emission(st, q, v),
    )
}

/// The `Serialize` implementation of the struct, starting at identifier `p`:
/// a region on the serializer that takes `self`, destructures it into its
/// members, serializes them and yields the result.
pub open spec fn serialize_impl_emission(st: Struct, p: usize) -> Emission {
    let serializer = result_of(p, 0);
    let sv = nth_id(p, 1);
    let d = nth_id(p, 2);
    let m = serialize_members_emission(st, nth_id(p, 3), serializer);
    let y = nth_id(p, 3 + m.count);
    let op = nth_id(p, 4 + m.count);
    let ops = seq![
        self_shape(sv),
        shape(
            "destructure"@,
            d,
            seq![result_of(sv, 0)],
            0,
            seq![
                st.ident@,
                struct_bindings_text(struct_members(st.fields@, st.fields@.len() as int)),
            ],
            Seq::empty(),
            false,
        ),
    ] + m.ops;
    Emission {
        ops: seq![
            shape(
                "impl_serialize"@,
                op,
                Seq::empty(),
                0,
                seq![st.ident@, st.generics@],
                seq![body_region(p, ops, y, m.result)],
                false,
            ),
        ],
        result: result_of(op, 0),
        count: 5 + m.count,
    }
}

/// Binding each of `values` to the variable of the member with the same
/// place, from identifier `s`.
pub open spec fn syms(values: Seq<Value>, members: Seq<Member>, s: usize) -> Emission {
    Emission {
        ops: Seq::new(
            values.len(),
            |i: int|
                shape(
                    "sym"@,
                    nth_id(s, i as nat),
                    seq![values[i]],
                    0,
                    seq![member_ident(members[i])],
                    Seq::empty(),
                    false,
                ),
        ),
        result: result_of(s, 0),
        count: values.len(),
    }
}

/// Deserializing one field: its operations, a `try` of each of its values,
/// and each checked value bound to its member's variable; and the checked
/// values.
pub open spec fn field_deserialized(f: Field, s: usize, deserializer: Value) -> (Emission, Seq<Value>) {
    let d = deserialize_field_full(f, s, deserializer);
    let rs = deserialize_field_results(f, s, deserializer);
    let t = tries(rs, nth_id(s, d.count));
    let vals = tried(rs, nth_id(s, d.count));
    let b = syms(vals, field_members(f), nth_id(s, d.count + rs.len()));
    (then(then(d, t), b), vals)
}

/// Deserializing the first `k` fields one after another, and their checked
/// values.
pub open spec fn fields_deserialized(fields: Seq<Field>, k: int, s: usize, deserializer: Value) -> (
    Emission,
    Seq<Value>,
)
    decreases k,
{
    if k <= 0 {
        (nothing(deserializer), Seq::empty())
    } else {
        let (e, vs) = fields_deserialized(fields, k - 1, s, deserializer);
        let (f, fv) = field_deserialized(fields[k - 1], nth_id(s, e.count), deserializer);
        (then(e, f), vs + fv)
    }
}

/// The region in which the struct's fields are deserialized as a
/// composite, with identifier `r`, and how many identifiers it takes.
pub open spec fn deserialize_composite_region(st: Struct, r: usize) -> (RegionView, nat) {
    let a = result_of(r, 0);
    let fields = st.fields@;
    let (fe, vals) = fields_deserialized(fields, fields.len() as int, nth_id(r, 1), a);
    let o = offset_emission(nth_id(r, 1 + fe.count), a, st.len, false);
    let al = alignment_emission(nth_id(r, 1 + fe.count + o.count), a, st.round, false);
    let sc = nth_id(r, 1 + fe.count + o.count + al.count);
    let k = nth_id(r, 2 + fe.count + o.count + al.count);
    let y = nth_id(r, 3 + fe.count + o.count + al.count);
    let members = struct_members(fields, fields.len() as int);
    (
        body_region(
            r,
            fe.ops + o.ops + al.ops + seq![
                shape(
                    "struct"@,
                    sc,
                    vals,
                    1,
                    seq![st.ident@] + members.map_values(|m: Member| member_text(m)),
                    Seq::empty(),
                    false,
                ),
                ok_shape(k, result_of(sc, 0)),
            ],
            y,
            result_of(k, 0),
        ),
        4 + fe.count + o.count + al.count,
    )
}

/// The struct's fields deserialized as a composite on `deserializer`.
pub open spec fn deserialize_composite_emission(st: Struct, s: usize, deserializer: Value) -> Emission {
    let (region, rc) = deserialize_composite_region(st, s);
    let c = nth_id(s, rc);
    Emission {
        ops: seq![deserialize_composite_shape(c, deserializer, region)],
        result: result_of(c, 0),
        count: rc + 1,
    }
}

/// Deserializing the struct's members: the composite, in the struct's byte
/// order.
pub open spec fn deserialize_members_emission(st: Struct, s: usize, deserializer: Value) -> Emission {
    ordered_emission(
        s,
        deserializer,
        st.byte_order,
        false,
        |q: usize, v: Value| deserialize_composite_emission(st, q, v),
    )
}

/// The `Deserialize` implementation of the struct, starting at identifier
/// `p`: a region on the deserializer that deserializes the members and
/// yields the result.
pub open spec fn deserialize_impl_emission(st: Struct, p: usize) -> Emission {
    let deserializer = result_of(p, 0);
    let m = deserialize_members_emission(st, nth_id(p, 1), deserializer);
    let y = nth_id(p, 1 + m.count);
    let op = nth_id(p, 2 + m.count);
    Emission {
        ops: seq![
            shape(
                "impl_deserialize"@,
                op,
                Seq::empty(),
                0,
                seq![st.ident@, st.generics@],
                seq![body_region(p, m.ops, y, m.result)],
                false,
            ),
        ],
        result: result_of(op, 0),
        count: 3 + m.count,
    }
}

//------------------------------------------------------------------------------
// Lowering.
//------------------------------------------------------------------------------

/// Checks each of `values` with a `try`.
fn try_all(region: &mut Region, ids: &mut IdSource, values: &Vec<Value>) -> (checked: Vec<Value>)
    requires
        !old(region).is_terminated(),
    ensures
        emits(*old(region), *final(region), *old(ids), *final(ids), tries(values@, old(ids).next)),
        checked@ == tried(values@, old(ids).next),
{
    let ghost r0 = *region;
    let ghost i0 = *ids;
    let ghost s = ids.next;
    proof {
        lemma_emits_nothing(r0, i0, result_of(s, 0));
    }
    let mut checked: Vec<Value> = Vec::new();
    let mut k: usize = 0;
    while k < values.len()
        invariant
            k <= values.len(),
            s == i0.next,
            emits(
                r0,
                *region,
                i0,
                *ids,
                Emission {
                    ops: tries(values@, s).ops.take(k as int),
                    result: result_of(s, 0),
                    count: k as nat,
                },
            ),
            checked@ == tried(values@, s).take(k as int),
        decreases values.len() - k,
    {
        let ghost rk = *region;
        let ghost ik = *ids;
        let v = try_(region, ids, values[k]);
        checked.push(v);
        proof {
            let step = single(try_shape(ik.next, values@[k as int]));
            let acc = Emission {
                ops: tries(values@, s).ops.take(k as int),
                result: result_of(s, 0),
                count: k as nat,
            };
            lemma_emits_then(r0, rk, *region, i0, ik, *ids, acc, step);
            assert(ik.next == nth_id(s, k as nat));
            assert(tries(values@, s).ops[k as int] == try_shape(nth_id(s, k as nat), values@[k as int]));
            assert(tries(values@, s).ops.take(k + 1) =~= acc.ops + step.ops);
            assert(tried(values@, s)[k as int] == result_of(nth_id(s, k as nat), 0));
            assert(checked@ =~= tried(values@, s).take(k + 1));
        }
        k = k + 1;
    }
    assert(tries(values@, s).ops.take(k as int) =~= tries(values@, s).ops);
    assert(tried(values@, s).take(k as int) =~= tried(values@, s));
    checked
}

proof fn lemma_fields_serialized_step(fields: Seq<Field>, k: int, s: usize, serializer: Value)
    requires
        0 <= k,
    ensures
        fields_serialized(fields, k + 1, s, serializer) == ({
            let (e, rs) = fields_serialized(fields, k, s, serializer);
            let f = serialize_field_emission(fields[k], nth_id(s, e.count), serializer, true);
            (then(e, f), rs.push(f.result))
        }),
{
}

/// Serializes the fields one after another.
#[verifier::spinoff_prover]
fn serialize_fields(region: &mut Region, ids: &mut IdSource, fields: &Vec<Field>, serializer: Value) -> (results: Vec<Value>)
    requires
        !old(region).is_terminated(),
    ensures
        emits(
            *old(region),
            *final(region),
            *old(ids),
            *final(ids),
            fields_serialized(fields@, fields@.len() as int, old(ids).next, serializer).0,
        ),
        results@ == fields_serialized(fields@, fields@.len() as int, old(ids).next, serializer).1,
{
    let ghost r0 = *region;
    let ghost i0 = *ids;
    let ghost s = ids.next;
    proof {
        lemma_emits_nothing(r0, i0, serializer);
    }
    let mut results: Vec<Value> = Vec::new();
    let mut k: usize = 0;
    while k < fields.len()
        invariant
            k <= fields.len(),
            s == i0.next,
            !region.is_terminated(),
            emits(r0, *region, i0, *ids, fields_serialized(fields@, k as int, s, serializer).0),
            results@ == fields_serialized(fields@, k as int, s, serializer).1,
        decreases fields.len() - k,
    {
        let ghost rk = *region;
        let ghost ik = *ids;
        let out = fields[k].to_serialize_op(region, ids, (serializer, true));
        results.push(out[0]);
        proof {
            let prev = fields_serialized(fields@, k as int, s, serializer).0;
            let step = serialize_field_emission(fields@[k as int], ik.next, serializer, true);
            lemma_emits_then(r0, rk, *region, i0, ik, *ids, prev, step);
            lemma_fields_serialized_step(fields@, k as int, s, serializer);
        }
        k = k + 1;
    }
    results
}

fn serialize_empty_body(region: &mut Region, ids: &mut IdSource, a: Value, st: &Struct) -> (result: Value)
    requires
        !old(region).is_terminated(),
    ensures
        emits(
            *old(region),
            *final(region),
            *old(ids),
            *final(ids),
            empty_body_emission(old(ids).next, a, st.len, st.round),
        ),
        result == empty_body_emission(old(ids).next, a, st.len, st.round).result,
{
    let ghost q1 = *region;
    let ghost j1 = *ids;
    let sc = success(region, ids, a);
    let ghost q2 = *region;
    let ghost j2 = *ids;
    with_maybe_offset(region, ids, a, st.len, true);
    let ghost q3 = *region;
    let ghost j3 = *ids;
    with_maybe_alignment(region, ids, a, st.round, true);
    proof {
        let e1 = single(success_shape(j1.next, a));
        let e2 = offset_emission(j2.next, a, st.len, true);
        let e3 = alignment_emission(j3.next, a, st.round, true);
        lemma_emits_then(q1, q2, q3, j1, j2, j3, e1, e2);
        lemma_emits_then(q1, q3, *region, j1, j3, *ids, then(e1, e2), e3);
    }
    sc
}

#[verifier::spinoff_prover]
fn serialize_fields_body(region: &mut Region, ids: &mut IdSource, a: Value, st: &Struct) -> (result: Value)
    requires
        !old(region).is_terminated(),
    ensures
        emits(
            *old(region),
            *final(region),
            *old(ids),
            *final(ids),
            fields_body_emission(st.fields@, old(ids).next, a, st.len, st.round),
        ),
        result == fields_body_emission(st.fields@, old(ids).next, a, st.len, st.round).result,
{
    let ghost q1 = *region;
    let ghost j1 = *ids;
    let results = serialize_fields(region, ids, &st.fields, a);
    let ghost q2 = *region;
    let ghost j2 = *ids;
    let spans = try_all(region, ids, &results);
    let ghost q3 = *region;
    let ghost j3 = *ids;
    with_maybe_offset(region, ids, a, st.len, true);
    let ghost q4 = *region;
    let ghost j4 = *ids;
    with_maybe_alignment(region, ids, a, st.round, true);
    let ghost q5 = *region;
    let ghost j5 = *ids;
    let ghost span_values = spans@;
    let tu = tuple(region, ids, spans);
    let ghost q6 = *region;
    let ghost j6 = *ids;
    let k = ok(region, ids, tu);
    proof {
        let (fe, rs) = fields_serialized(st.fields@, st.fields@.len() as int, j1.next, a);
        let e2 = tries(rs, j2.next);
        let e3 = offset_emission(j3.next, a, st.len, true);
        let e4 = alignment_emission(j4.next, a, st.round, true);
        let e5 = single(shape("tuple"@, j5.next, span_values, 1, Seq::empty(), Seq::empty(), false));
        let e6 = single(ok_shape(j6.next, tu));
        crate::ops::lemma_emitted_single(
            q5,
            q6,
            j5,
            j6,
            "tuple"@,
            span_values,
            Seq::empty(),
            Seq::empty(),
        );
        assert(all_regions_view(Seq::<Region>::empty()) =~= Seq::<RegionView>::empty());
        lemma_emits_then(q1, q2, q3, j1, j2, j3, fe, e2);
        lemma_emits_then(q1, q3, q4, j1, j3, j4, then(fe, e2), e3);
        lemma_emits_then(q1, q4, q5, j1, j4, j5, then(then(fe, e2), e3), e4);
        lemma_emits_then(q1, q5, q6, j1, j5, j6, then(then(then(fe, e2), e3), e4), e5);
        lemma_emits_then(q1, q6, *region, j1, j6, *ids, then(then(then(then(fe, e2), e3), e4), e5), e6);
    }
    k
}

/// The region in which the struct's fields are serialized as a composite.
fn serialize_composite_body(ids: &mut IdSource, st: &Struct) -> (inner: Region)
    ensures
        region_view(inner) == serialize_composite_region(st.fields@, st.len, st.round, old(ids).next).0,
        final(ids).next == nth_id(
            old(ids).next,
            serialize_composite_region(st.fields@, st.len, st.round, old(ids).next).1,
        ),
{
    let ghost r = ids.next;
    let mut inner = Region::new(ids, 1);
    let ghost q1 = inner;
    let ghost j1 = *ids;
    let a = inner.arguments()[0];
    proof {
        assert(inner.args() =~= seq![result_of(r, 0)]);
        reveal_with_fuel(nth_id, 2);
    }
    let result = if st.fields.len() == 0 {
        serialize_empty_body(&mut inner, ids, a, st)
    } else {
        serialize_fields_body(&mut inner, ids, a, st)
    };
    let ghost q2 = inner;
    let ghost j2 = *ids;
    let mut results: Vec<Value> = Vec::new();
    results.push(result);
    yield_(&mut inner, ids, results);
    proof {
        let e = if st.fields@.len() == 0 {
            empty_body_emission(j1.next, a, st.len, st.round)
        } else {
            fields_body_emission(st.fields@, j1.next, a, st.len, st.round)
        };
        assert(results@ =~= seq![result]);
        lemma_body_region(q1, q2, inner, j1, j2, *ids, j1, e, result);
        lemma_nth_id_add(r, 1, e.count);
        lemma_nth_id_add(r, 1 + e.count, 1);
    }
    inner
}

fn serialize_composite_part(region: &mut Region, ids: &mut IdSource, st: &Struct, serializer: Value) -> (result: Value)
    requires
        !old(region).is_terminated(),
    ensures
        emits(
            *old(region),
            *final(region),
            *old(ids),
            *final(ids),
            serialize_composite_emission(*st, old(ids).next, serializer),
        ),
        result == serialize_composite_emission(*st, old(ids).next, serializer).result,
{
    let ghost s = ids.next;
    let ghost q0 = *region;
    let inner = serialize_composite_body(ids, st);
    let ghost form = region_view(inner);
    let ghost j0 = *ids;
    let maybe_composite = serialize_composite(region, ids, serializer, inner);
    let ghost q1 = *region;
    let ghost j1 = *ids;
    let composite = try_(region, ids, maybe_composite);
    let ghost q2 = *region;
    let ghost j2 = *ids;
    let span_member = Member::Unnamed(0);
    let span = member(region, ids, composite, &span_member, false);
    let ghost q3 = *region;
    let ghost j3 = *ids;
    let result = ok(region, ids, span);
    proof {
        let rc = serialize_composite_region(st.fields@, st.len, st.round, s).1;
        let e1 = single(serialize_composite_shape(j0.next, serializer, form));
        let e2 = single(try_shape(j1.next, maybe_composite));
        let e3 = single(member_shape(j2.next, composite, Member::Unnamed(0), false));
        let e4 = single(ok_shape(j3.next, span));
        lemma_emits_then(q0, q1, q2, j0, j1, j2, e1, e2);
        lemma_emits_then(q0, q2, q3, j0, j2, j3, then(e1, e2), e3);
        lemma_emits_then(q0, q3, *region, j0, j3, *ids, then(then(e1, e2), e3), e4);
        reveal_with_fuel(nth_id, 2);
        lemma_nth_id_add(s, rc, 1);
        lemma_nth_id_add(s, rc + 1, 1);
        lemma_nth_id_add(s, rc + 2, 1);
        lemma_nth_id_add(s, rc, 4);
        let expected = serialize_composite_emission(*st, s, serializer);
        assert(then(then(then(e1, e2), e3), e4).ops =~= expected.ops);
    }
    result
}


/// The bindings of a destructuring: each member to its own variable.
fn member_bindings(members: &Vec<&Member>) -> (bindings: Vec<(Member, String)>)
    ensures
        bindings_text(bindings@) == struct_bindings_text(members@.map_values(|m: &Member| *m)),
{
    let mut bindings: Vec<(Member, String)> = Vec::new();
    let mut k: usize = 0;
    while k < members.len()
        invariant
            k <= members.len(),
            bindings@.map_values(|b: (Member, String)| member_text(b.0) + ": "@ + b.1@)
                == members@.take(k as int).map_values(
                |m: &Member| member_text(*m) + ": "@ + member_ident(*m),
            ),
        decreases members.len() - k,
    {
        let m = members[k];
        let ghost before = bindings@;
        let binding = (m.duplicate(), m.to_ident());
        bindings.push(binding);
        proof {
            assert(bindings@.map_values(|b: (Member, String)| member_text(b.0) + ": "@ + b.1@)
                =~= before.map_values(|b: (Member, String)| member_text(b.0) + ": "@ + b.1@).push(
                member_text(*m) + ": "@ + member_ident(*m),
            ));
        }
        k = k + 1;
        assert(bindings@.map_values(|b: (Member, String)| member_text(b.0) + ": "@ + b.1@)
            =~= members@.take(k as int).map_values(
            |m: &Member| member_text(*m) + ": "@ + member_ident(*m),
        ));
    }
    assert(members@.take(k as int) =~= members@);
    assert(members@.map_values(|m: &Member| member_text(*m) + ": "@ + member_ident(*m))
        =~= members@.map_values(|m: &Member| *m).map_values(
        |m: Member| member_text(m) + ": "@ + member_ident(m),
    ));
    bindings
}

/// Binds each of `values` to the variable of the member in the same place.
fn bind_members(region: &mut Region, ids: &mut IdSource, values: &Vec<Value>, members: &Vec<&Member>)
    requires
        !old(region).is_terminated(),
        values.len() == members.len(),
    ensures
        emits(
            *old(region),
            *final(region),
            *old(ids),
            *final(ids),
            syms(values@, members@.map_values(|m: &Member| *m), old(ids).next),
        ),
{
    let ghost r0 = *region;
    let ghost i0 = *ids;
    let ghost s = ids.next;
    let ghost ms = members@.map_values(|m: &Member| *m);
    proof {
        lemma_emits_nothing(r0, i0, result_of(s, 0));
    }
    let mut k: usize = 0;
    while k < values.len()
        invariant
            k <= values.len(),
            values.len() == members.len(),
            s == i0.next,
            ms == members@.map_values(|m: &Member| *m),
            emits(
                r0,
                *region,
                i0,
                *ids,
                Emission {
                    ops: syms(values@, ms, s).ops.take(k as int),
                    result: result_of(s, 0),
                    count: k as nat,
                },
            ),
        decreases values.len() - k,
    {
        let ghost rk = *region;
        let ghost ik = *ids;
        let ident = members[k].to_ident();
        sym(region, ids, values[k], ident.as_str());
        proof {
            let attrs = seq![member_ident(ms[k as int])];
            assert(ident@ == member_ident(ms[k as int]));
            lemma_emitted_op(rk, *region, ik, *ids, "sym"@, seq![values@[k as int]], 0, attrs, Seq::empty());
            assert(all_regions_view(Seq::<Region>::empty()) =~= Seq::<RegionView>::empty());
            let step = single(shape("sym"@, ik.next, seq![values@[k as int]], 0, attrs, Seq::empty(), false));
            let acc = Emission {
                ops: syms(values@, ms, s).ops.take(k as int),
                result: result_of(s, 0),
                count: k as nat,
            };
            lemma_emits_then(r0, rk, *region, i0, ik, *ids, acc, step);
            assert(syms(values@, ms, s).ops.take(k + 1) =~= acc.ops + step.ops);
        }
        k = k + 1;
    }
    assert(syms(values@, ms, s).ops.take(k as int) =~= syms(values@, ms, s).ops);
}

/// Deserializes one field, checks each of its values and binds each to its
/// member's variable.
fn deserialize_field_into(region: &mut Region, ids: &mut IdSource, field: &Field, deserializer: Value) -> (values: Vec<Value>)
    requires
        !old(region).is_terminated(),
    ensures
        emits(
            *old(region),
            *final(region),
            *old(ids),
            *final(ids),
            field_deserialized(*field, old(ids).next, deserializer).0,
        ),
        values@ == field_deserialized(*field, old(ids).next, deserializer).1,
        values@.len() == field_members(*field).len(),
{
    let ghost s = ids.next;
    let ghost q0 = *region;
    let ghost j0 = *ids;
    let results = field.to_deserialize_op(region, ids, deserializer);
    let ghost q1 = *region;
    let ghost j1 = *ids;
    let values = try_all(region, ids, &results);
    let ghost q2 = *region;
    let ghost j2 = *ids;
    let members = field.members();
    proof {
        assert(members@.map_values(|m: &Member| *m) =~= field_members(*field));
    }
    bind_members(region, ids, &values, &members);
    proof {
        let d = deserialize_field_full(*field, s, deserializer);
        let rs = deserialize_field_results(*field, s, deserializer);
        let t = tries(rs, j1.next);
        let b = syms(values@, field_members(*field), j2.next);
        lemma_emits_then(q0, q1, q2, j0, j1, j2, d, t);
        lemma_emits_then(q0, q2, *region, j0, j2, *ids, then(d, t), b);
        lemma_nth_id_add(s, d.count, rs.len());
    }
    values
}

proof fn lemma_fields_deserialized_step(fields: Seq<Field>, k: int, s: usize, deserializer: Value)
    requires
        0 <= k,
    ensures
        fields_deserialized(fields, k + 1, s, deserializer) == ({
            let (e, vs) = fields_deserialized(fields, k, s, deserializer);
            let (f, fv) = field_deserialized(fields[k], nth_id(s, e.count), deserializer);
            (then(e, f), vs + fv)
        }),
{
}

/// Deserializes the fields one after another.
#[verifier::spinoff_prover]
fn deserialize_fields(region: &mut Region, ids: &mut IdSource, fields: &Vec<Field>, deserializer: Value) -> (values: Vec<Value>)
    requires
        !old(region).is_terminated(),
    ensures
        emits(
            *old(region),
            *final(region),
            *old(ids),
            *final(ids),
            fields_deserialized(fields@, fields@.len() as int, old(ids).next, deserializer).0,
        ),
        values@ == fields_deserialized(fields@, fields@.len() as int, old(ids).next, deserializer).1,
        values@.len() == struct_members(fields@, fields@.len() as int).len(),
{
    let ghost r0 = *region;
    let ghost i0 = *ids;
    let ghost s = ids.next;
    proof {
        lemma_emits_nothing(r0, i0, deserializer);
    }
    let mut values: Vec<Value> = Vec::new();
    let mut k: usize = 0;
    while k < fields.len()
        invariant
            k <= fields.len(),
            s == i0.next,
            !region.is_terminated(),
            emits(r0, *region, i0, *ids, fields_deserialized(fields@, k as int, s, deserializer).0),
            values@ == fields_deserialized(fields@, k as int, s, deserializer).1,
            values@.len() == struct_members(fields@, k as int).len(),
        decreases fields.len() - k,
    {
        let ghost rk = *region;
        let ghost ik = *ids;
        let ghost before = values@;
        let fv = deserialize_field_into(region, ids, &fields[k], deserializer);
        let mut j: usize = 0;
        while j < fv.len()
            invariant
                j <= fv.len(),
                values@ == before + fv@.take(j as int),
            decreases fv.len() - j,
        {
            values.push(fv[j]);
            j = j + 1;
            assert(values@ =~= before + fv@.take(j as int));
        }
        proof {
            assert(fv@.take(j as int) =~= fv@);
            let prev = fields_deserialized(fields@, k as int, s, deserializer).0;
            let step = field_deserialized(fields@[k as int], ik.next, deserializer).0;
            lemma_emits_then(r0, rk, *region, i0, ik, *ids, prev, step);
            lemma_fields_deserialized_step(fields@, k as int, s, deserializer);
        }
        k = k + 1;
    }
    values
}

/// Pairs each member with the value in the same place.
fn member_values(members: &Vec<&Member>, values: &Vec<Value>) -> (pairs: Vec<(Member, Value)>)
    requires
        members.len() == values.len(),
    ensures
        pairs@.map_values(|p: (Member, Value)| p.1) == values@,
        pairs@.map_values(|p: (Member, Value)| member_text(p.0)) == members@.map_values(
            |m: &Member| member_text(*m),
        ),
{
    let mut pairs: Vec<(Member, Value)> = Vec::new();
    let mut k: usize = 0;
    while k < members.len()
        invariant
            k <= members.len(),
            members.len() == values.len(),
            pairs@.map_values(|p: (Member, Value)| p.1) == values@.take(k as int),
            pairs@.map_values(|p: (Member, Value)| member_text(p.0)) == members@.take(k as int).map_values(
                |m: &Member| member_text(*m),
            ),
        decreases members.len() - k,
    {
        let m = members[k].duplicate();
        let ghost before = pairs@;
        pairs.push((m, values[k]));
        proof {
            assert(pairs@.map_values(|p: (Member, Value)| p.1) =~= before.map_values(
                |p: (Member, Value)| p.1,
            ).push(values@[k as int]));
            assert(pairs@.map_values(|p: (Member, Value)| member_text(p.0)) =~= before.map_values(
                |p: (Member, Value)| member_text(p.0),
            ).push(member_text(*members@[k as int])));
        }
        k = k + 1;
        assert(pairs@.map_values(|p: (Member, Value)| p.1) =~= values@.take(k as int));
        assert(pairs@.map_values(|p: (Member, Value)| member_text(p.0)) =~= members@.take(k as int).map_values(
            |m: &Member| member_text(*m),
        ));
    }
    assert(values@.take(k as int) =~= values@);
    assert(members@.take(k as int) =~= members@);
    pairs
}

/// The region in which the struct's fields are deserialized as a composite.
#[verifier::spinoff_prover]
fn deserialize_composite_body(ids: &mut IdSource, st: &Struct) -> (inner: Region)
    ensures
        region_view(inner) == deserialize_composite_region(*st, old(ids).next).0,
        final(ids).next == nth_id(old(ids).next, deserialize_composite_region(*st, old(ids).next).1),
{
    let ghost r = ids.next;
    let mut inner = Region::new(ids, 1);
    let ghost q1 = inner;
    let ghost j1 = *ids;
    let a = inner.arguments()[0];
    proof {
        assert(inner.args() =~= seq![result_of(r, 0)]);
        reveal_with_fuel(nth_id, 2);
    }
    let values = deserialize_fields(&mut inner, ids, &st.fields, a);
    let ghost q2 = inner;
    let ghost j2 = *ids;
    with_maybe_offset(&mut inner, ids, a, st.len, false);
    let ghost q3 = inner;
    let ghost j3 = *ids;
    with_maybe_alignment(&mut inner, ids, a, st.round, false);
    let ghost q4 = inner;
    let ghost j4 = *ids;
    let members = st.members();
    let pairs = member_values(&members, &values);
    let sc = struct_(&mut inner, ids, st.ident.as_str(), &pairs);
    let ghost q5 = inner;
    let ghost j5 = *ids;
    let k = ok(&mut inner, ids, sc);
    let ghost q6 = inner;
    let ghost j6 = *ids;
    let mut results: Vec<Value> = Vec::new();
    results.push(k);
    yield_(&mut inner, ids, results);
    proof {
        let fields = st.fields@;
        let mem = struct_members(fields, fields.len() as int);
        let fe = fields_deserialized(fields, fields.len() as int, j1.next, a).0;
        let o = offset_emission(j2.next, a, st.len, false);
        let al = alignment_emission(j3.next, a, st.round, false);
        let attrs = seq![st.ident@] + mem.map_values(|m: Member| member_text(m));
        assert(members@.map_values(|m: &Member| member_text(*m)) =~= mem.map_values(
            |m: Member| member_text(m),
        ));
        assert(pairs@.map_values(|p: (Member, Value)| member_text(p.0)) == mem.map_values(
            |m: Member| member_text(m),
        ));
        crate::ops::lemma_emitted_single(q4, q5, j4, j5, "struct"@, values@, attrs, Seq::empty());
        assert(all_regions_view(Seq::<Region>::empty()) =~= Seq::<RegionView>::empty());
        let e5 = single(shape("struct"@, j4.next, values@, 1, attrs, Seq::empty(), false));
        let e6 = single(ok_shape(j5.next, sc));
        lemma_emits_then(q1, q2, q3, j1, j2, j3, fe, o);
        lemma_emits_then(q1, q3, q4, j1, j3, j4, then(fe, o), al);
        lemma_emits_then(q1, q4, q5, j1, j4, j5, then(then(fe, o), al), e5);
        lemma_emits_then(q1, q5, q6, j1, j5, j6, then(then(then(fe, o), al), e5), e6);
        assert(results@ =~= seq![k]);
        let e = then(then(then(then(fe, o), al), e5), e6);
        lemma_body_region(q1, q6, inner, j1, j6, *ids, j1, e, k);
        lemma_nth_id_add(r, 1, fe.count);
        lemma_nth_id_add(r, 1 + fe.count, o.count);
        lemma_nth_id_add(r, 1 + fe.count + o.count, al.count);
        lemma_nth_id_add(r, 1 + fe.count + o.count + al.count, 1);
        lemma_nth_id_add(r, 2 + fe.count + o.count + al.count, 1);
        lemma_nth_id_add(r, 3 + fe.count + o.count + al.count, 1);
        assert(e.ops =~= fe.ops + o.ops + al.ops + seq![
            shape("struct"@, j4.next, values@, 1, attrs, Seq::empty(), false),
            ok_shape(j5.next, sc),
        ]);
    }
    inner
}

fn deserialize_composite_part(region: &mut Region, ids: &mut IdSource, st: &Struct, deserializer: Value) -> (result: Value)
    requires
        !old(region).is_terminated(),
    ensures
        emits(
            *old(region),
            *final(region),
            *old(ids),
            *final(ids),
            deserialize_composite_emission(*st, old(ids).next, deserializer),
        ),
        result == deserialize_composite_emission(*st, old(ids).next, deserializer).result,
{
    let ghost s = ids.next;
    let inner = deserialize_composite_body(ids, st);
    let ghost form = region_view(inner);
    let result = deserialize_composite(region, ids, deserializer, inner);
    proof {
        let rc = deserialize_composite_region(*st, s).1;
        lemma_nth_id_add(s, rc, 1);
    }
    result
}

impl ToSerializeOp for Struct {
    /// Nothing besides the region.
    type Args = ();

    /// Lowers the struct's `Serialize` implementation: on the serializer,
    /// `self` is destructured into its members, which are serialized as a
    /// composite in the struct's byte order.
    fn to_serialize_op(&self, region: &mut Region, ids: &mut IdSource, args: ()) -> (results: Vec<Value>)
        ensures
            emits(
                *old(region),
                *final(region),
                *old(ids),
                *final(ids),
                serialize_impl_emission(*self, old(ids).next),
            ),
            results@.len() == 0,
    {
        let ghost p = ids.next;
        let mut body = Region::new(ids, 1);
        let ghost q1 = body;
        let ghost j1 = *ids;
        let serializer = body.arguments()[0];
        proof {
            assert(body.args() =~= seq![result_of(p, 0)]);
            reveal_with_fuel(nth_id, 2);
        }
        let self_value = self_(&mut body, ids);
        let ghost q2 = body;
        let ghost j2 = *ids;
        let members = self.members();
        let bindings = member_bindings(&members);
        destructure(&mut body, ids, self_value, self.ident.as_str(), &bindings);
        let ghost q3 = body;
        let ghost j3 = *ids;
        let result = self.serialize_members(&mut body, ids, serializer);
        let ghost q4 = body;
        let ghost j4 = *ids;
        let mut results: Vec<Value> = Vec::new();
        results.push(result);
        yield_(&mut body, ids, results);
        let ghost j5 = *ids;
        let ghost form = region_view(body);
        let ghost q6 = *region;
        impl_serialize(region, ids, self.ident.as_str(), self.generics.as_str(), body);
        proof {
            let mem = struct_members(self.fields@, self.fields@.len() as int);
            let e1 = single(self_shape(j1.next));
            let attrs = seq![self.ident@, struct_bindings_text(mem)];
            lemma_emitted_op(q2, q3, j2, j3, "destructure"@, seq![self_value], 0, attrs, Seq::empty());
            assert(all_regions_view(Seq::<Region>::empty()) =~= Seq::<RegionView>::empty());
            let e2 = single(shape("destructure"@, j2.next, seq![self_value], 0, attrs, Seq::empty(), false));
            let e3 = serialize_members_emission(*self, j3.next, serializer);
            lemma_emits_then(q1, q2, q3, j1, j2, j3, e1, e2);
            lemma_emits_then(q1, q3, q4, j1, j3, j4, then(e1, e2), e3);
            assert(results@ =~= seq![result]);
            lemma_body_region(q1, q4, body, j1, j4, j5, j1, then(then(e1, e2), e3), result);
            lemma_emitted_op(
                q6,
                *region,
                j5,
                *ids,
                "impl_serialize"@,
                Seq::empty(),
                0,
                seq![self.ident@, self.generics@],
                seq![body],
            );
            lemma_all_regions_view(seq![body]);
            assert(all_regions_view(seq![body]) =~= seq![form]);
            lemma_nth_id_add(p, 1, 1);
            lemma_nth_id_add(p, 2, 1);
            lemma_nth_id_add(p, 3, e3.count);
            lemma_nth_id_add(p, 3 + e3.count, 1);
            lemma_nth_id_add(p, 4 + e3.count, 1);
            let expected = serialize_impl_emission(*self, p);
            assert(then(then(e1, e2), e3).ops =~= seq![
                self_shape(nth_id(p, 1)),
                shape("destructure"@, nth_id(p, 2), seq![result_of(nth_id(p, 1), 0)], 0, attrs, Seq::empty(), false),
            ] + e3.ops);
            assert(form == expected.ops[0].regions[0]);
        }
        Vec::new()
    }
}

impl ToDeserializeOp for Struct {
    /// Nothing besides the region.
    type Args = ();


    /// Lowers the struct's `Deserialize` implementation: on the
    /// deserializer, the members are deserialized as a composite in the
    /// struct's byte order, and the struct is built from them.
    fn to_deserialize_op(&self, region: &mut Region, ids: &mut IdSource, args: ()) -> (results: Vec<Value>)
        ensures
            emits(
                *old(region),
                *final(region),
                *old(ids),
                *final(ids),
                deserialize_impl_emission(*self, old(ids).next),
            ),
            results@.len() == 0,
    {
        let ghost p = ids.next;
        let mut body = Region::new(ids, 1);
        let ghost q1 = body;
        let ghost j1 = *ids;
        let deserializer = body.arguments()[0];
        proof {
            assert(body.args() =~= seq![result_of(p, 0)]);
            reveal_with_fuel(nth_id, 2);
        }
        let result = self.deserialize_members(&mut body, ids, deserializer);
        let ghost q2 = body;
        let ghost j2 = *ids;
        let mut results: Vec<Value> = Vec::new();
        results.push(result);
        yield_(&mut body, ids, results);
        let ghost j3 = *ids;
        let ghost form = region_view(body);
        let ghost q4 = *region;
        impl_deserialize(region, ids, self.ident.as_str(), self.generics.as_str(), body);
        proof {
            let e = deserialize_members_emission(*self, j1.next, deserializer);
            assert(results@ =~= seq![result]);
            lemma_body_region(q1, q2, body, j1, j2, j3, j1, e, result);
            lemma_emitted_op(
                q4,
                *region,
                j3,
                *ids,
                "impl_deserialize"@,
                Seq::empty(),
                0,
                seq![self.ident@, self.generics@],
                seq![body],
            );
            lemma_all_regions_view(seq![body]);
            assert(all_regions_view(seq![body]) =~= seq![form]);
            lemma_nth_id_add(p, 1, e.count);
            lemma_nth_id_add(p, 1 + e.count, 1);
            lemma_nth_id_add(p, 2 + e.count, 1);
        }
        Vec::new()
    }
}

impl Struct {
    /// Lowers serializing the struct's members on `serializer`: the
    /// composite of its fields, in the struct's byte order if it has one.
    pub fn serialize_members(&self, region: &mut Region, ids: &mut IdSource, serializer: Value) -> (result: Value)
        requires
            !old(region).is_terminated(),
        ensures
            emits(
                *old(region),
                *final(region),
                *old(ids),
                *final(ids),
                serialize_members_emission(*self, old(ids).next, serializer),
            ),
            result == serialize_members_emission(*self, old(ids).next, serializer).result,
    {
        match self.byte_order {
            Some(o) => {
                let ghost s = ids.next;
                let mut inner = Region::new(ids, 1);
                let ghost q1 = inner;
                let ghost j1 = *ids;
                let a = inner.arguments()[0];
                proof {
                    assert(inner.args() =~= seq![result_of(s, 0)]);
                    reveal_with_fuel(nth_id, 2);
                }
                let res = serialize_composite_part(&mut inner, ids, self, a);
                let ghost q2 = inner;
                let ghost j2 = *ids;
                let mut results: Vec<Value> = Vec::new();
                results.push(res);
                yield_(&mut inner, ids, results);
                let ghost j3 = *ids;
                let ghost form = region_view(inner);
                let ghost q4 = *region;
                let result = byte_order(region, ids, serializer, o, true, inner);
                proof {
                    let b = serialize_composite_emission(*self, j1.next, a);
                    assert(results@ =~= seq![res]);
                    lemma_body_region(q1, q2, inner, j1, j2, j3, j1, b, res);
                    lemma_nth_id_add(s, 1, b.count);
                    lemma_nth_id_add(s, 1 + b.count, 1);
                    lemma_nth_id_add(s, 2 + b.count, 1);
                    let expected = serialize_members_emission(*self, s, serializer);
                    assert(single(byte_order_shape(j3.next, serializer, o, true, form)).ops =~= expected.ops);
                }
                result
            },
            None => serialize_composite_part(region, ids, self, serializer),
        }
    }

    /// Lowers deserializing the struct's members on `deserializer`: the
    /// composite of its fields, in the struct's byte order if it has one.
    pub fn deserialize_members(&self, region: &mut Region, ids: &mut IdSource, deserializer: Value) -> (result: Value)
        requires
            !old(region).is_terminated(),
        ensures
            emits(
                *old(region),
                *final(region),
                *old(ids),
                *final(ids),
                deserialize_members_emission(*self, old(ids).next, deserializer),
            ),
            result == deserialize_members_emission(*self, old(ids).next, deserializer).result,
    {
        match self.byte_order {
            Some(o) => {
                let ghost s = ids.next;
                let mut inner = Region::new(ids, 1);
                let ghost q1 = inner;
                let ghost j1 = *ids;
                let a = inner.arguments()[0];
                proof {
                    assert(inner.args() =~= seq![result_of(s, 0)]);
                    reveal_with_fuel(nth_id, 2);
                }
                let res = deserialize_composite_part(&mut inner, ids, self, a);
                let ghost q2 = inner;
                let ghost j2 = *ids;
                let mut results: Vec<Value> = Vec::new();
                results.push(res);
                yield_(&mut inner, ids, results);
                let ghost j3 = *ids;
                let ghost form = region_view(inner);
                let result = byte_order(region, ids, deserializer, o, false, inner);
                proof {
                    let b = deserialize_composite_emission(*self, j1.next, a);
                    assert(results@ =~= seq![res]);
                    lemma_body_region(q1, q2, inner, j1, j2, j3, j1, b, res);
                    lemma_nth_id_add(s, 1, b.count);
                    lemma_nth_id_add(s, 1 + b.count, 1);
                    lemma_nth_id_add(s, 2 + b.count, 1);
                    let expected = deserialize_members_emission(*self, s, deserializer);
                    assert(single(byte_order_shape(j3.next, deserializer, o, false, form)).ops =~= expected.ops);
                }
                result
            },
            None => deserialize_composite_part(region, ids, self, deserializer),
        }
    }

    /// The struct that the parsed struct describes: its fields grouped into
    /// bit fields, and each group turned into a field. Refused where the
    /// members of a bit field are not consecutive, and otherwise at the
    /// first group whose members disagree.
    pub fn from_parsed(value: parse::Struct) -> (r: Result<Struct, LayoutError>)
        ensures
            match grouping(value.fields@, value.fields@.len() as int) {
                Err(i) => r matches Err(e) && e.position == ErrorPosition::Item(i as usize)
                    && e.message@ == non_consecutive_message(storage_of(value.fields@[i]).unwrap()),
                Ok((groups, _)) => match r {
                    Ok(st) => {
                        &&& st.ident == value.ident
                        &&& st.generics == value.generics
                        &&& st.byte_order == value.byte_order
                        &&& st.len == value.len
                        &&& st.round == value.round
                        &&& groups_outcome(groups, Ok(st.fields@))
                    },
                    Err(e) => groups_outcome(groups, Err(e)),
                },
            },
    {
        let parse::Struct { ident, generics, byte_order, len, round, fields } = value;
        let ghost parsed = fields@;
        let count = fields.len();
        let groups = match group_fields(fields) {
            Ok(groups) => groups,
            Err(e) => return Err(e),
        };
        proof {
            lemma_grouping_holds_every_field(parsed, parsed.len() as int);
            assert(group_views(groups@) == grouping(parsed, parsed.len() as int)->Ok_0.0);
            assert(group_views(groups@).len() == groups@.len());
            assert(parsed.len() == count);
            assert(fields_before(group_views(groups@), groups@.len() as int) == parsed.len());
        }
        match fields_from_groups(groups) {
            Ok(fields) => Ok(Struct { ident, generics, byte_order, len, round, fields }),
            Err(e) => Err(e),
        }
    }

    /// The struct members that the fields hold, in order.
    pub fn members(&self) -> (r: Vec<&Member>)
        ensures
            r@.map_values(|m: &Member| *m) == struct_members(self.fields@, self.fields@.len() as int),
            r@.map_values(|m: &Member| *m) == self.fields@.map_values(|f: Field| field_members(f)).flatten(),
    {
        proof {
            lemma_members_field_by_field(self.fields@, self.fields@.len() as int);
            assert(self.fields@.take(self.fields@.len() as int) =~= self.fields@);
        }
        let mut r: Vec<&Member> = Vec::new();
        let mut k: usize = 0;
        while k < self.fields.len()
            invariant
                k <= self.fields.len(),
                r@.map_values(|m: &Member| *m) == struct_members(self.fields@, k as int),
            decreases self.fields.len() - k,
        {
            let ms = self.fields[k].members();
            let ghost before = r@;
            let mut j: usize = 0;
            while j < ms.len()
                invariant
                    j <= ms.len(),
                    r@ == before + ms@.take(j as int),
                decreases ms.len() - j,
            {
                r.push(ms[j]);
                j = j + 1;
                assert(r@ =~= before + ms@.take(j as int));
            }
            proof {
                assert(ms@.take(j as int) =~= ms@);
                assert(ms@.map_values(|m: &Member| *m) =~= field_members(self.fields@[k as int]));
                assert(r@.map_values(|m: &Member| *m) =~= before.map_values(|m: &Member| *m) + ms@.map_values(
                    |m: &Member| *m,
                ));
            }
            k = k + 1;
        }
        r
    }
}

//------------------------------------------------------------------------------
// Serializing and deserializing name the same members.
//------------------------------------------------------------------------------

/// The `destructure` that a `Serialize` implementation starts with.
pub open spec fn destructuring(e: Emission) -> OperationView {
    e.ops[0].regions[0].operations[1]
}

/// The `struct` that a `Deserialize` implementation builds its result with:
/// in the composite, inside the byte order when there is one.
pub open spec fn construction(e: Emission, ordered: bool) -> OperationView {
    let body = e.ops[0].regions[0];
    let outer = if ordered {
        body.operations[0].regions[0]
    } else {
        body
    };
    let composite = outer.operations[0].regions[0];
    composite.operations[composite.operations.len() - 3]
}

proof fn lemma_destructuring(st: Struct, p: usize)
    ensures
        destructuring(serialize_impl_emission(st, p)).name == "destructure"@,
        destructuring(serialize_impl_emission(st, p)).attributes == seq![
            st.ident@,
            struct_bindings_text(struct_members(st.fields@, st.fields@.len() as int)),
        ],
{
    let sm = serialize_members_emission(st, nth_id(p, 3), result_of(p, 0));
    let ops = seq![
        self_shape(nth_id(p, 1)),
        shape(
            "destructure"@,
            nth_id(p, 2),
            seq![result_of(nth_id(p, 1), 0)],
            0,
            seq![st.ident@, struct_bindings_text(struct_members(st.fields@, st.fields@.len() as int))],
            Seq::empty(),
            false,
        ),
    ] + sm.ops;
    assert(ops.push(yield_shape(nth_id(p, 3 + sm.count), seq![sm.result]))[1] == ops[1]);
}

proof fn lemma_composite_construction(st: Struct, r: usize)
    ensures
        ({
            let composite = deserialize_composite_region(st, r).0;
            let op = composite.operations[composite.operations.len() - 3];
            &&& op.name == "struct"@
            &&& op.attributes == seq![st.ident@] + struct_members(st.fields@, st.fields@.len() as int).map_values(
                |m: Member| member_text(m),
            )
        }),
{
    let a = result_of(r, 0);
    let fields = st.fields@;
    let (fe, vals) = fields_deserialized(fields, fields.len() as int, nth_id(r, 1), a);
    let o = offset_emission(nth_id(r, 1 + fe.count), a, st.len, false);
    let al = alignment_emission(nth_id(r, 1 + fe.count + o.count), a, st.round, false);
    let tail = seq![
        shape(
            "struct"@,
            nth_id(r, 1 + fe.count + o.count + al.count),
            vals,
            1,
            seq![st.ident@] + struct_members(fields, fields.len() as int).map_values(|m: Member| member_text(m)),
            Seq::empty(),
            false,
        ),
        ok_shape(nth_id(r, 2 + fe.count + o.count + al.count), result_of(nth_id(r, 1 + fe.count + o.count + al.count), 0)),
    ];
    let ops = fe.ops + o.ops + al.ops + tail;
    let all = ops.push(yield_shape(nth_id(r, 3 + fe.count + o.count + al.count), seq![result_of(nth_id(r, 2 + fe.count + o.count + al.count), 0)]));
    assert(all[all.len() - 3] == tail[0]);
}

/// Deserializing a struct builds it from the same members, in the same
/// order, that serializing it takes it apart into: the fields' members, in
/// field order (each bit field member in its bit field's place).
pub proof fn lemma_same_members(st: Struct, p: usize, q: usize)
    ensures
        ({
            let members = struct_members(st.fields@, st.fields@.len() as int);
            &&& destructuring(serialize_impl_emission(st, p)).name == "destructure"@
            &&& destructuring(serialize_impl_emission(st, p)).attributes == seq![
                st.ident@,
                struct_bindings_text(members),
            ]
            &&& construction(deserialize_impl_emission(st, q), st.byte_order is Some).name == "struct"@
            &&& construction(deserialize_impl_emission(st, q), st.byte_order is Some).attributes == seq![
                st.ident@,
            ] + members.map_values(|m: Member| member_text(m))
        }),
{
    lemma_destructuring(st, p);
    let de = deserialize_impl_emission(st, q);
    let dm = deserialize_members_emission(st, nth_id(q, 1), result_of(q, 0));
    let dbody = de.ops[0].regions[0];
    assert(dbody.operations[0] == dm.ops[0]);
    match st.byte_order {
        Some(o) => {
            let s = nth_id(q, 1);
            let b = deserialize_composite_emission(st, nth_id(s, 1), result_of(s, 0));
            let inner = body_region(s, b.ops, nth_id(s, 1 + b.count), b.result);
            assert(dbody.operations[0].regions[0] == inner);
            assert(inner.operations[0] == b.ops[0]);
            lemma_composite_construction(st, nth_id(s, 1));
        },
        None => {
            lemma_composite_construction(st, nth_id(q, 1));
        },
    }
}

} // verus!
