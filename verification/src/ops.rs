//! Builders of the operations that the lowering emits. Each builder appends
//! exactly one operation, with a fresh identifier, to a region that has not
//! been terminated, and gives back the operation's results.
pub mod algorithm;
pub mod bit_field;
pub mod collection;
pub mod language;
pub mod serialization;
pub mod trait_impl;

use vstd::prelude::*;

use crate::ir::dag::{following, lemma_nth_id_add, nth_id, Id, IdSource, Value};
use crate::ir::operation::{
    all_regions_view, lemma_ops_view_push, operation_view, ops_view, Operation, OperationView,
    RegionView,
};
use crate::ir::region::{arguments_of, Region};

verus! {

/// `after` is `before` with one more operation at its end.
pub open spec fn appended_one(before: Region, after: Region) -> bool {
    &&& after.ident() == before.ident()
    &&& after.args() == before.args()
    &&& after.ops().len() == before.ops().len() + 1
    &&& after.ops().drop_last() == before.ops()
}

/// The texts of an operation's attributes.
pub open spec fn attribute_texts(op: Operation) -> Seq<Seq<char>> {
    op.attributes@.map_values(|s: String| s@)
}

/// `op` is the operation with these parts, whose results are the first
/// `num_outputs` values of its identifier.
pub open spec fn is_operation(
    op: Operation,
    name: Seq<char>,
    id: usize,
    inputs: Seq<Value>,
    num_outputs: nat,
    attributes: Seq<Seq<char>>,
    regions: Seq<Region>,
    terminator: bool,
) -> bool {
    &&& op.name@ == name
    &&& op.id == Id(id)
    &&& op.inputs@ == inputs
    &&& op.outputs@ == arguments_of(Id(id), num_outputs)
    &&& attribute_texts(op) == attributes
    &&& op.regions@ == regions
    &&& op.terminator == terminator
}

/// The `index`-th result of the operation with identifier `id`.
pub open spec fn result_of(id: usize, index: usize) -> Value {
    Value { owner: Id(id), index }
}

/// Appending to `before` under identifiers from `ids_before` gave `after`
/// and `ids_after`: one operation with these parts was added.
pub open spec fn emitted(
    before: Region,
    after: Region,
    ids_before: IdSource,
    ids_after: IdSource,
    name: Seq<char>,
    inputs: Seq<Value>,
    num_outputs: nat,
    attributes: Seq<Seq<char>>,
    regions: Seq<Region>,
    terminator: bool,
) -> bool {
    &&& ids_after.next == following(ids_before.next)
    &&& appended_one(before, after)
    &&& is_operation(
        last_operation(after),
        name,
        ids_before.next,
        inputs,
        num_outputs,
        attributes,
        regions,
        terminator,
    )
}

/// The last operation of a region.
pub open spec fn last_operation(r: Region) -> Operation {
    r.ops().last()
}

/// The form of the operation with these parts, whose results are the first
/// `num_outputs` values of its identifier.
pub open spec fn shape(
    name: Seq<char>,
    id: usize,
    inputs: Seq<Value>,
    num_outputs: nat,
    attributes: Seq<Seq<char>>,
    regions: Seq<RegionView>,
    terminator: bool,
) -> OperationView {
    OperationView {
        name,
        id,
        terminator,
        inputs,
        outputs: arguments_of(Id(id), num_outputs),
        attributes,
        regions,
    }
}

/// What a piece of lowering appends: the forms of its operations, the value
/// it gives back, and how many identifiers it takes.
pub struct Emission {
    pub ops: Seq<OperationView>,
    pub result: Value,
    pub count: nat,
}

/// Appending to `before` with identifiers from `ids_before` gave `after` and
/// `ids_after`, adding the operations of `e`, none of them a terminator.
pub open spec fn emits(before: Region, after: Region, ids_before: IdSource, ids_after: IdSource, e: Emission) -> bool {
    &&& after.ident() == before.ident()
    &&& after.args() == before.args()
    &&& ops_view(after.ops()) == ops_view(before.ops()) + e.ops
    &&& ids_after.next == nth_id(ids_before.next, e.count)
    &&& !after.is_terminated()
}

/// One emission after another.
pub open spec fn then(e1: Emission, e2: Emission) -> Emission {
    Emission { ops: e1.ops + e2.ops, result: e2.result, count: e1.count + e2.count }
}

/// One operation with one result.
pub open spec fn single(op: OperationView) -> Emission {
    Emission { ops: seq![op], result: result_of(op.id, 0), count: 1 }
}

/// Nothing, giving back `v`.
pub open spec fn nothing(v: Value) -> Emission {
    Emission { ops: Seq::empty(), result: v, count: 0 }
}

/// An emitted operation, in the form of what it adds.
pub proof fn lemma_emitted_view(
    before: Region,
    after: Region,
    ids_before: IdSource,
    ids_after: IdSource,
    name: Seq<char>,
    inputs: Seq<Value>,
    num_outputs: nat,
    attributes: Seq<Seq<char>>,
    regions: Seq<Region>,
    terminator: bool,
)
    requires
        emitted(
            before,
            after,
            ids_before,
            ids_after,
            name,
            inputs,
            num_outputs,
            attributes,
            regions,
            terminator,
        ),
    ensures
        ops_view(after.ops()) == ops_view(before.ops()).push(
            shape(
                name,
                ids_before.next,
                inputs,
                num_outputs,
                attributes,
                all_regions_view(regions),
                terminator,
            ),
        ),
        ids_after.next == nth_id(ids_before.next, 1),
        after.is_terminated() == terminator,
{
    let op = last_operation(after);
    reveal_with_fuel(nth_id, 2);
    assert(after.ops() =~= before.ops().push(op));
    lemma_ops_view_push(before.ops(), op);
}

/// An emitted operation without terminator, as an emission.
pub proof fn lemma_emitted_single(
    before: Region,
    after: Region,
    ids_before: IdSource,
    ids_after: IdSource,
    name: Seq<char>,
    inputs: Seq<Value>,
    attributes: Seq<Seq<char>>,
    regions: Seq<Region>,
)
    requires
        emitted(before, after, ids_before, ids_after, name, inputs, 1, attributes, regions, false),
    ensures
        emits(
            before,
            after,
            ids_before,
            ids_after,
            single(
                shape(
                    name,
                    ids_before.next,
                    inputs,
                    1,
                    attributes,
                    all_regions_view(regions),
                    false,
                ),
            ),
        ),
{
    lemma_emitted_view(
        before,
        after,
        ids_before,
        ids_after,
        name,
        inputs,
        1,
        attributes,
        regions,
        false,
    );
    assert(ops_view(before.ops()).push(
        shape(name, ids_before.next, inputs, 1, attributes, all_regions_view(regions), false),
    ) =~= ops_view(before.ops()) + seq![
        shape(name, ids_before.next, inputs, 1, attributes, all_regions_view(regions), false),
    ]);
}

/// An emitted operation without terminator, with any number of results, as
/// an emission.
pub proof fn lemma_emitted_op(
    before: Region,
    after: Region,
    ids_before: IdSource,
    ids_after: IdSource,
    name: Seq<char>,
    inputs: Seq<Value>,
    num_outputs: nat,
    attributes: Seq<Seq<char>>,
    regions: Seq<Region>,
)
    requires
        emitted(before, after, ids_before, ids_after, name, inputs, num_outputs, attributes, regions, false),
    ensures
        emits(
            before,
            after,
            ids_before,
            ids_after,
            single(
                shape(
                    name,
                    ids_before.next,
                    inputs,
                    num_outputs,
                    attributes,
                    all_regions_view(regions),
                    false,
                ),
            ),
        ),
{
    lemma_emitted_view(
        before,
        after,
        ids_before,
        ids_after,
        name,
        inputs,
        num_outputs,
        attributes,
        regions,
        false,
    );
    assert(ops_view(before.ops()).push(
        shape(name, ids_before.next, inputs, num_outputs, attributes, all_regions_view(regions), false),
    ) =~= ops_view(before.ops()) + seq![
        shape(name, ids_before.next, inputs, num_outputs, attributes, all_regions_view(regions), false),
    ]);
}

/// Emissions compose.
pub proof fn lemma_emits_then(
    a: Region,
    b: Region,
    c: Region,
    ia: IdSource,
    ib: IdSource,
    ic: IdSource,
    e1: Emission,
    e2: Emission,
)
    requires
        emits(a, b, ia, ib, e1),
        emits(b, c, ib, ic, e2),
    ensures
        emits(a, c, ia, ic, then(e1, e2)),
{
    lemma_nth_id_add(ia.next, e1.count, e2.count);
    assert(ops_view(a.ops()) + e1.ops + e2.ops =~= ops_view(a.ops()) + (e1.ops
        + e2.ops));
}

/// Doing nothing emits nothing.
pub proof fn lemma_emits_nothing(a: Region, ia: IdSource, v: Value)
    requires
        !a.is_terminated(),
    ensures
        emits(a, a, ia, ia, nothing(v)),
{
    assert(ops_view(a.ops()) + Seq::<OperationView>::empty() =~= ops_view(a.ops()));
}

/// Appends the operation with these parts, under a fresh identifier.
pub fn build_operation(
    region: &mut Region,
    ids: &mut IdSource,
    name: &str,
    inputs: Vec<Value>,
    num_outputs: usize,
    attributes: Vec<String>,
    regions: Vec<Region>,
    terminator: bool,
) -> (outputs: Vec<Value>)
    requires
        !old(region).is_terminated(),
    ensures
        final(ids).next == following(old(ids).next),
        appended_one(*old(region), *final(region)),
        is_operation(
            last_operation(*final(region)),
            name@,
            old(ids).next,
            inputs@,
            num_outputs as nat,
            attributes@.map_values(|s: String| s@),
            regions@,
            terminator,
        ),
        outputs@ == arguments_of(Id(old(ids).next), num_outputs as nat),
{
    let id = Id::new(ids);
    let mut results: Vec<Value> = Vec::new();
    let mut i: usize = 0;
    while i < num_outputs
        invariant
            i <= num_outputs,
            results@ == arguments_of(id, i as nat),
        decreases num_outputs - i,
    {
        results.push(id.value(i));
        i = i + 1;
        assert(results@ =~= arguments_of(id, i as nat));
    }
    let op = Operation {
        name: name.to_owned(),
        id,
        terminator,
        inputs,
        outputs: results,
        attributes,
        regions,
    };
    let outputs = region.push(op);
    proof {
        assert(final(region).ops().drop_last() =~= old(region).ops());
    }
    outputs
}

/// One text as a vector.
pub fn texts1(a: String) -> (v: Vec<String>)
    ensures
        v@.map_values(|s: String| s@) == seq![a@],
{
    let mut v: Vec<String> = Vec::new();
    v.push(a);
    assert(v@.map_values(|s: String| s@) =~= seq![a@]);
    v
}

/// Two texts as a vector.
pub fn texts2(a: String, b: String) -> (v: Vec<String>)
    ensures
        v@.map_values(|s: String| s@) == seq![a@, b@],
{
    let mut v: Vec<String> = Vec::new();
    v.push(a);
    v.push(b);
    assert(v@.map_values(|s: String| s@) =~= seq![a@, b@]);
    v
}

/// Three texts as a vector.
pub fn texts3(a: String, b: String, c: String) -> (v: Vec<String>)
    ensures
        v@.map_values(|s: String| s@) == seq![a@, b@, c@],
{
    let mut v: Vec<String> = Vec::new();
    v.push(a);
    v.push(b);
    v.push(c);
    assert(v@.map_values(|s: String| s@) =~= seq![a@, b@, c@]);
    v
}

/// No texts.
pub fn texts0() -> (v: Vec<String>)
    ensures
        v@.map_values(|s: String| s@) == Seq::<Seq<char>>::empty(),
{
    let v: Vec<String> = Vec::new();
    assert(v@.map_values(|s: String| s@) =~= Seq::<Seq<char>>::empty());
    v
}

/// One value as a vector.
pub fn values1(a: Value) -> (v: Vec<Value>)
    ensures
        v@ == seq![a],
{
    let mut v: Vec<Value> = Vec::new();
    v.push(a);
    assert(v@ =~= seq![a]);
    v
}

/// Two values as a vector.
pub fn values2(a: Value, b: Value) -> (v: Vec<Value>)
    ensures
        v@ == seq![a, b],
{
    let mut v: Vec<Value> = Vec::new();
    v.push(a);
    v.push(b);
    assert(v@ =~= seq![a, b]);
    v
}

/// One region as a vector.
pub fn regions1(a: Region) -> (v: Vec<Region>)
    ensures
        v@ == seq![a],
{
    let mut v: Vec<Region> = Vec::new();
    v.push(a);
    assert(v@ =~= seq![a]);
    v
}

} // verus!
