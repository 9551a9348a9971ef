//! The layout of a field: an offset to pad to, an alignment, a size to round
//! up to and a byte order, wrapped around what the field itself emits.
use vstd::prelude::*;

use crate::attribute::{ByteOrder, Member};
use crate::ir::dag::{lemma_nth_id_add, nth_id, IdSource, Value};
use crate::ir::operation::{
    all_regions_view, lemma_all_regions_view, ops_view, region_view, OperationView, RegionView,
};
use crate::ir::region::Region;
use crate::ops::language::{member, member_shape, ok, ok_shape, try_, try_shape, yield_};
use crate::ops::serialization::{
    align, align_shape, byte_order, byte_order_shape, deserialize_composite,
    deserialize_composite_shape, pad, pad_shape, serialize_composite, serialize_composite_shape,
};
use crate::ops::{
    emits, lemma_emits_nothing, lemma_emits_then, lemma_emitted_view, nothing, result_of, shape,
    single, then, Emission,
};
use crate::structure::field::{body_emission, emit_body, FieldBody};

pub use crate::ir::{ToDeserializeOp, ToSerializeOp};

verus! {

/// The form of a `yield` operation with identifier `id`.
pub open spec fn yield_shape(id: usize, values: Seq<Value>) -> OperationView {
    shape("yield"@, id, values, 0, Seq::empty(), Seq::empty(), true)
}

/// A region with identifier `id`, one argument, and these operations
/// followed by a `yield` of `result` with identifier `y`.
pub open spec fn body_region(id: usize, ops: Seq<OperationView>, y: usize, result: Value) -> RegionView {
    RegionView {
        id,
        arguments: seq![result_of(id, 0)],
        operations: ops.push(yield_shape(y, seq![result])),
    }
}

/// A region with one argument, built from nothing by `e` and then a `yield`
/// of `result`, is [`body_region`].
pub proof fn lemma_body_region(
    fresh: Region,
    body: Region,
    done: Region,
    ids_body: IdSource,
    ids_yield: IdSource,
    ids_done: IdSource,
    ids_fresh: IdSource,
    e: Emission,
    result: Value,
)
    requires
        fresh.ops().len() == 0,
        fresh.args() == seq![result_of(fresh.ident().0, 0)],
        emits(fresh, body, ids_fresh, ids_yield, e),
        crate::ops::emitted(
            body,
            done,
            ids_yield,
            ids_done,
            "yield"@,
            seq![result],
            0,
            Seq::empty(),
            Seq::empty(),
            true,
        ),
    ensures
        region_view(done) == body_region(fresh.ident().0, e.ops, ids_yield.next, result),
        ids_done.next == nth_id(ids_yield.next, 1),
{
    lemma_emitted_view(
        body,
        done,
        ids_yield,
        ids_done,
        "yield"@,
        seq![result],
        0,
        Seq::empty(),
        Seq::empty(),
        true,
    );
    assert(all_regions_view(Seq::<Region>::empty()) =~= Seq::<RegionView>::empty());
    assert(ops_view(fresh.ops()) =~= Seq::<OperationView>::empty());
    assert(region_view(done).operations =~= e.ops.push(yield_shape(ids_yield.next, seq![result])));
}

/// Padding to `offset`, when there is one, and checking it.
pub open spec fn offset_emission(s: usize, serializer: Value, offset: Option<u64>, serializing: bool) -> Emission {
    match offset {
        Some(o) => Emission {
            ops: seq![pad_shape(s, serializer, o, serializing), try_shape(nth_id(s, 1), result_of(s, 0))],
            result: result_of(nth_id(s, 1), 0),
            count: 2,
        },
        None => nothing(serializer),
    }
}

/// Aligning to `align`, when there is one, and checking it.
pub open spec fn alignment_emission(s: usize, serializer: Value, alignment: Option<u64>, serializing: bool) -> Emission {
    match alignment {
        Some(a) => Emission {
            ops: seq![
                align_shape(s, serializer, a, serializing),
                try_shape(nth_id(s, 1), result_of(s, 0)),
            ],
            result: result_of(nth_id(s, 1), 0),
            count: 2,
        },
        None => nothing(serializer),
    }
}

/// The body, inside a `byte_order` operation when there is a byte order.
pub open spec fn byte_order_emission(
    s: usize,
    serializer: Value,
    order: Option<ByteOrder>,
    is_serializing: bool,
    body: FieldBody,
) -> Emission {
    match order {
        Some(o) => {
            let b = body_emission(body, nth_id(s, 1), result_of(s, 0));
            let y = nth_id(s, 1 + b.count);
            let op = nth_id(s, 2 + b.count);
            Emission {
                ops: seq![
                    byte_order_shape(
                        op,
                        serializer,
                        o,
                        is_serializing,
                        body_region(s, b.ops, y, b.result),
                    ),
                ],
                result: result_of(op, 0),
                count: 3 + b.count,
            }
        },
        None => body_emission(body, s, serializer),
    }
}

/// The region that rounds the size of what `inner` emits up to `round`.
pub open spec fn rounded_region(s: usize, inner: Emission, round: u64, is_serializing: bool) -> RegionView {
    let a = nth_id(s, 1 + inner.count);
    let t = nth_id(s, 2 + inner.count);
    let y = nth_id(s, 3 + inner.count);
    body_region(
        s,
        inner.ops + seq![
            align_shape(a, result_of(s, 0), round, is_serializing),
            try_shape(t, result_of(a, 0)),
        ],
        y,
        inner.result,
    )
}

/// The body (in its byte order) inside a composite whose size is rounded up
/// to `round`, when there is one; serializing gives back the span of the
/// body's result.
pub open spec fn rounding_emission(
    s: usize,
    serializer: Value,
    round: Option<u64>,
    is_serializing: bool,
    order: Option<ByteOrder>,
    body: FieldBody,
) -> Emission {
    match round {
        Some(r) => {
            let inner = byte_order_emission(nth_id(s, 1), result_of(s, 0), order, is_serializing, body);
            let region = rounded_region(s, inner, r, is_serializing);
            let c = nth_id(s, 4 + inner.count);
            if is_serializing {
                let t = nth_id(s, 5 + inner.count);
                let m = nth_id(s, 6 + inner.count);
                let k = nth_id(s, 7 + inner.count);
                Emission {
                    ops: seq![
                        serialize_composite_shape(c, serializer, region),
                        try_shape(t, result_of(c, 0)),
                        member_shape(m, result_of(t, 0), Member::Unnamed(1), false),
                        ok_shape(k, result_of(m, 0)),
                    ],
                    result: result_of(k, 0),
                    count: 8 + inner.count,
                }
            } else {
                Emission {
                    ops: seq![deserialize_composite_shape(c, serializer, region)],
                    result: result_of(c, 0),
                    count: 5 + inner.count,
                }
            }
        },
        None => byte_order_emission(s, serializer, order, is_serializing, body),
    }
}

/// Offset, alignment, then the rounded body in its byte order.
pub open spec fn field_layout_emission(
    s: usize,
    serializer: Value,
    is_serializing: bool,
    order: Option<ByteOrder>,
    offset: Option<u64>,
    alignment: Option<u64>,
    round: Option<u64>,
    body: FieldBody,
) -> Emission {
    let o = offset_emission(s, serializer, offset, is_serializing);
    let a = alignment_emission(nth_id(s, o.count), serializer, alignment, is_serializing);
    let r = rounding_emission(
        nth_id(s, o.count + a.count),
        serializer,
        round,
        is_serializing,
        order,
        body,
    );
    then(then(o, a), r)
}

/// Pads to `offset` and checks the result, when there is an offset.
pub fn with_maybe_offset(
    region: &mut Region,
    ids: &mut IdSource,
    serializer: Value,
    offset: Option<u64>,
    serializing: bool,
)
    requires
        !old(region).is_terminated(),
    ensures
        emits(
            *old(region),
            *final(region),
            *old(ids),
            *final(ids),
            offset_emission(old(ids).next, serializer, offset, serializing),
        ),
{
    let ghost r0 = *region;
    let ghost i0 = *ids;
    match offset {
        Some(o) => {
            let maybe_offset = pad(region, ids, serializer, o, serializing);
            let ghost r1 = *region;
            let ghost i1 = *ids;
            let _ = try_(region, ids, maybe_offset);
            proof {
                let e1 = single(pad_shape(i0.next, serializer, o, serializing));
                let e2 = single(try_shape(i1.next, maybe_offset));
                lemma_emits_then(r0, r1, *region, i0, i1, *ids, e1, e2);
                reveal_with_fuel(nth_id, 2);
                assert(then(e1, e2).ops =~= offset_emission(i0.next, serializer, offset, serializing).ops);
            }
        },
        None => {
            proof {
                lemma_emits_nothing(r0, i0, serializer);
            }
        },
    }
}

/// Aligns to `alignment` and checks the result, when there is an alignment.
pub fn with_maybe_alignment(
    region: &mut Region,
    ids: &mut IdSource,
    serializer: Value,
    alignment: Option<u64>,
    serializing: bool,
)
    requires
        !old(region).is_terminated(),
    ensures
        emits(
            *old(region),
            *final(region),
            *old(ids),
            *final(ids),
            alignment_emission(old(ids).next, serializer, alignment, serializing),
        ),
{
    let ghost r0 = *region;
    let ghost i0 = *ids;
    match alignment {
        Some(a) => {
            let aligned = align(region, ids, serializer, a, serializing);
            let ghost r1 = *region;
            let ghost i1 = *ids;
            let _ = try_(region, ids, aligned);
            proof {
                let e1 = single(align_shape(i0.next, serializer, a, serializing));
                let e2 = single(try_shape(i1.next, aligned));
                lemma_emits_then(r0, r1, *region, i0, i1, *ids, e1, e2);
                reveal_with_fuel(nth_id, 2);
                assert(then(e1, e2).ops =~= alignment_emission(i0.next, serializer, alignment, serializing).ops);
            }
        },
        None => {
            proof {
                lemma_emits_nothing(r0, i0, serializer);
            }
        },
    }
}

/// A region with one argument, holding what the body emits from that
/// argument and then a `yield` of its result.
fn body_in_region(ids: &mut IdSource, body: &FieldBody) -> (r: Region)
    ensures
        ({
            let b = body_emission(*body, nth_id(old(ids).next, 1), result_of(old(ids).next, 0));
            &&& region_view(r) == body_region(
                old(ids).next,
                b.ops,
                nth_id(old(ids).next, 1 + b.count),
                b.result,
            )
            &&& final(ids).next == nth_id(old(ids).next, 2 + b.count)
        }),
{
    let ghost s = ids.next;
    let mut inner = Region::new(ids, 1);
    let ghost r1 = inner;
    let ghost i1 = *ids;
    let argument = inner.arguments()[0];
    let result = emit_body(&mut inner, ids, argument, body);
    let ghost r2 = inner;
    let ghost i2 = *ids;
    let mut results: Vec<Value> = Vec::new();
    results.push(result);
    yield_(&mut inner, ids, results);
    proof {
        reveal_with_fuel(nth_id, 2);
        let b = body_emission(*body, i1.next, argument);
        assert(argument == result_of(s, 0));
        lemma_emitted_view(
            r2,
            inner,
            i2,
            *ids,
            "yield"@,
            seq![result],
            0,
            Seq::empty(),
            Seq::empty(),
            true,
        );
        assert(all_regions_view(Seq::<Region>::empty()) =~= Seq::<RegionView>::empty());
        assert(ops_view(r1.ops()) =~= Seq::<OperationView>::empty());
        assert(ops_view(r2.ops()) =~= b.ops);
        lemma_nth_id_add(s, 1, b.count);
        lemma_nth_id_add(s, 1 + b.count, 1);
        assert(inner.args() =~= seq![result_of(s, 0)]);
        assert(region_view(inner).operations =~= b.ops.push(
            yield_shape(nth_id(s, 1 + b.count), seq![result]),
        ));
    }
    inner
}

/// Runs the body inside a `byte_order` operation when there is a byte
/// order, and directly otherwise.
pub fn with_maybe_byte_order(
    region: &mut Region,
    ids: &mut IdSource,
    serializer: Value,
    order: Option<ByteOrder>,
    is_serializing: bool,
    body: &FieldBody,
) -> (result: Value)
    requires
        !old(region).is_terminated(),
    ensures
        emits(
            *old(region),
            *final(region),
            *old(ids),
            *final(ids),
            byte_order_emission(old(ids).next, serializer, order, is_serializing, *body),
        ),
        result == byte_order_emission(old(ids).next, serializer, order, is_serializing, *body).result,
{
    match order {
        Some(o) => {
            let ghost s = ids.next;
            let inner = body_in_region(ids, body);
            let ghost i1 = *ids;
            let ghost form = region_view(inner);
            let result = byte_order(region, ids, serializer, o, is_serializing, inner);
            proof {
                let b = body_emission(*body, nth_id(s, 1), result_of(s, 0));
                assert(i1.next == nth_id(s, 2 + b.count));
                lemma_nth_id_add(s, 2 + b.count, 1);
                assert((2 + b.count + 1) as nat == 3 + b.count);
                assert(single(byte_order_shape(i1.next, serializer, o, is_serializing, form)).ops
                    =~= byte_order_emission(s, serializer, order, is_serializing, *body).ops);
            }
            result
        },
        None => emit_body(region, ids, serializer, body),
    }
}

/// The region inside a rounded composite: the body (in its byte order) on
/// the region's argument, then the alignment to `round`, checked, then a
/// `yield` of the body's result.
fn rounded_body_region(
    ids: &mut IdSource,
    r: u64,
    is_serializing: bool,
    order: Option<ByteOrder>,
    body: &FieldBody,
) -> (inner: Region)
    ensures
        ({
            let ie = byte_order_emission(
                nth_id(old(ids).next, 1),
                result_of(old(ids).next, 0),
                order,
                is_serializing,
                *body,
            );
            &&& region_view(inner) == rounded_region(old(ids).next, ie, r, is_serializing)
            &&& final(ids).next == nth_id(old(ids).next, 4 + ie.count)
        }),
{
    let ghost s = ids.next;
    let mut inner = Region::new(ids, 1);
    let ghost q1 = inner;
    let ghost j1 = *ids;
    let argument = inner.arguments()[0];
    let maybe_result = with_maybe_byte_order(&mut inner, ids, argument, order, is_serializing, body);
    let ghost q2 = inner;
    let ghost j2 = *ids;
    let maybe_round = align(&mut inner, ids, argument, r, is_serializing);
    let ghost q3 = inner;
    let ghost j3 = *ids;
    let _ = try_(&mut inner, ids, maybe_round);
    let ghost q4 = inner;
    let ghost j4 = *ids;
    let mut results: Vec<Value> = Vec::new();
    results.push(maybe_result);
    yield_(&mut inner, ids, results);
    let ghost j5 = *ids;
    let ghost ie = byte_order_emission(nth_id(s, 1), result_of(s, 0), order, is_serializing, *body);
    proof {
        reveal_with_fuel(nth_id, 2);
        assert(argument == result_of(s, 0));
        let e2 = single(align_shape(j2.next, argument, r, is_serializing));
        let e3 = single(try_shape(j3.next, maybe_round));
        lemma_emits_then(q1, q2, q3, j1, j2, j3, ie, e2);
        lemma_emits_then(q1, q3, q4, j1, j3, j4, then(ie, e2), e3);
        lemma_emitted_view(
            q4,
            inner,
            j4,
            j5,
            "yield"@,
            seq![maybe_result],
            0,
            Seq::empty(),
            Seq::empty(),
            true,
        );
        assert(all_regions_view(Seq::<Region>::empty()) =~= Seq::<RegionView>::empty());
        assert(ops_view(q1.ops()) =~= Seq::<OperationView>::empty());
        lemma_nth_id_add(s, 1, ie.count);
        lemma_nth_id_add(s, 1 + ie.count, 1);
        lemma_nth_id_add(s, 2 + ie.count, 1);
        lemma_nth_id_add(s, 3 + ie.count, 1);
        assert(j2.next == nth_id(s, 1 + ie.count));
        assert(j3.next == nth_id(s, 2 + ie.count));
        assert(j4.next == nth_id(s, 3 + ie.count));
        assert(j5.next == nth_id(s, 4 + ie.count));
        assert(inner.args() =~= seq![result_of(s, 0)]);
        assert(region_view(inner).operations =~= rounded_region(s, ie, r, is_serializing).operations);
        assert(region_view(inner) == rounded_region(s, ie, r, is_serializing));
    }
    inner
}

/// Runs the body (in its byte order) inside a composite whose size is
/// rounded up to `round`, when there is one; serializing gives back the span
/// of the body's result.
pub fn with_maybe_rounding(
    region: &mut Region,
    ids: &mut IdSource,
    serializer: Value,
    round: Option<u64>,
    is_serializing: bool,
    order: Option<ByteOrder>,
    body: &FieldBody,
) -> (result: Value)
    requires
        !old(region).is_terminated(),
    ensures
        emits(
            *old(region),
            *final(region),
            *old(ids),
            *final(ids),
            rounding_emission(old(ids).next, serializer, round, is_serializing, order, *body),
        ),
        result == rounding_emission(
            old(ids).next,
            serializer,
            round,
            is_serializing,
            order,
            *body,
        ).result,
{
    match round {
        Some(r) => {
            let ghost s = ids.next;
            let inner = rounded_body_region(ids, r, is_serializing, order, body);
            let ghost ie = byte_order_emission(nth_id(s, 1), result_of(s, 0), order, is_serializing, *body);
            let ghost form = region_view(inner);
            let ghost r0 = *region;
            let ghost i0 = *ids;
            if is_serializing {
                let maybe_composite = serialize_composite(region, ids, serializer, inner);
                let ghost r1 = *region;
                let ghost i1 = *ids;
                let composite = try_(region, ids, maybe_composite);
                let ghost r2 = *region;
                let ghost i2 = *ids;
                let span_member = Member::Unnamed(1);
                let span = member(region, ids, composite, &span_member, false);
                let ghost r3 = *region;
                let ghost i3 = *ids;
                let result = ok(region, ids, span);
                proof {
                    let e1 = single(serialize_composite_shape(i0.next, serializer, form));
                    let e2 = single(try_shape(i1.next, maybe_composite));
                    let e3 = single(member_shape(i2.next, composite, Member::Unnamed(1), false));
                    let e4 = single(ok_shape(i3.next, span));
                    lemma_emits_then(r0, r1, r2, i0, i1, i2, e1, e2);
                    lemma_emits_then(r0, r2, r3, i0, i2, i3, then(e1, e2), e3);
                    lemma_emits_then(r0, r3, *region, i0, i3, *ids, then(then(e1, e2), e3), e4);
                    reveal_with_fuel(nth_id, 2);
                    lemma_nth_id_add(s, 4 + ie.count, 1);
                    lemma_nth_id_add(s, 5 + ie.count, 1);
                    lemma_nth_id_add(s, 6 + ie.count, 1);
                    lemma_nth_id_add(s, 7 + ie.count, 1);
                    lemma_nth_id_add(s, 4 + ie.count, 4);
                    let expected = rounding_emission(s, serializer, round, is_serializing, order, *body);
                    assert(then(then(then(e1, e2), e3), e4).ops =~= expected.ops);
                }
                result
            } else {
                let result = deserialize_composite(region, ids, serializer, inner);
                proof {
                    lemma_nth_id_add(s, 4 + ie.count, 1);
                    let expected = rounding_emission(s, serializer, round, is_serializing, order, *body);
                    assert(single(deserialize_composite_shape(i0.next, serializer, form)).ops =~= expected.ops);
                }
                result
            }
        },
        None => with_maybe_byte_order(region, ids, serializer, order, is_serializing, body),
    }
}

/// Lays out a field: pads to its offset, aligns it, and runs its body in its
/// byte order, rounded up to its rounding.
pub fn with_field_layout(
    region: &mut Region,
    ids: &mut IdSource,
    serializer: Value,
    is_serializing: bool,
    order: Option<ByteOrder>,
    offset: Option<u64>,
    alignment: Option<u64>,
    round: Option<u64>,
    body: &FieldBody,
) -> (result: Value)
    requires
        !old(region).is_terminated(),
    ensures
        emits(
            *old(region),
            *final(region),
            *old(ids),
            *final(ids),
            field_layout_emission(
                old(ids).next,
                serializer,
                is_serializing,
                order,
                offset,
                alignment,
                round,
                *body,
            ),
        ),
        result == field_layout_emission(
            old(ids).next,
            serializer,
            is_serializing,
            order,
            offset,
            alignment,
            round,
            *body,
        ).result,
{
    let ghost r0 = *region;
    let ghost i0 = *ids;
    with_maybe_offset(region, ids, serializer, offset, is_serializing);
    let ghost r1 = *region;
    let ghost i1 = *ids;
    with_maybe_alignment(region, ids, serializer, alignment, is_serializing);
    let ghost r2 = *region;
    let ghost i2 = *ids;
    let result = with_maybe_rounding(region, ids, serializer, round, is_serializing, order, body);
    proof {
        let o = offset_emission(i0.next, serializer, offset, is_serializing);
        let a = alignment_emission(i1.next, serializer, alignment, is_serializing);
        let r = rounding_emission(i2.next, serializer, round, is_serializing, order, *body);
        lemma_emits_then(r0, r1, r2, i0, i1, i2, o, a);
        lemma_emits_then(r0, r2, *region, i0, i2, *ids, then(o, a), r);
        lemma_nth_id_add(i0.next, o.count, a.count);
    }
    result
}

} // verus!
