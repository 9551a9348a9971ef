//! Builders of the operations for plain Rust expressions.
use vstd::prelude::*;

use crate::attribute::{Member, bool_text, bool_to_text, member_text};
use crate::ir::dag::{IdSource, Value};
use crate::ir::operation::{all_regions_view, OperationView, RegionView};
use crate::ir::region::Region;
use crate::ops::{build_operation, emitted, emits, single, shape, lemma_emitted_single, result_of, values1, texts0, texts1, texts2};

use crate::text::{append_str, chars_to_string, join, joined, str_chars, views};

verus! {

/// The form of a `self` operation with identifier `id`.
pub open spec fn self_shape(id: usize) -> OperationView {
    shape("self"@, id, Seq::<Value>::empty(), 1, Seq::<Seq<char>>::empty(), Seq::<RegionView>::empty(), false)
}

/// `self`: The value `self`.
pub fn self_(region: &mut Region, ids: &mut IdSource) -> (result: Value)
    requires
        !old(region).is_terminated(),
    ensures
        emits(
            *old(region),
            *final(region),
            *old(ids),
            *final(ids),
            single(self_shape(old(ids).next)),
        ),
        result == result_of(old(ids).next, 0),
{
    let ghost before = *region;
    let ghost ids_before = *ids;
    let outputs = build_operation(
        region,
        ids,
        "self",
        Vec::new(),
        1,
        texts0(),
        Vec::new(),
        false,
    );
    proof {
        assert(all_regions_view(Seq::<Region>::empty()) =~= Seq::<RegionView>::empty());
        lemma_emitted_single(
            before,
            *region,
            ids_before,
            *ids,
            "self"@,
            Seq::<Value>::empty(),
            Seq::<Seq<char>>::empty(),
            Seq::<Region>::empty(),
        );
    }
    outputs[0]
}

/// The form of a `ref` operation with identifier `id`.
pub open spec fn ref_shape(id: usize, value: Value) -> OperationView {
    shape("ref"@, id, seq![value], 1, Seq::<Seq<char>>::empty(), Seq::<RegionView>::empty(), false)
}

/// `ref`: A reference to `value`.
pub fn ref_(region: &mut Region, ids: &mut IdSource, value: Value) -> (result: Value)
    requires
        !old(region).is_terminated(),
    ensures
        emits(
            *old(region),
            *final(region),
            *old(ids),
            *final(ids),
            single(ref_shape(old(ids).next, value)),
        ),
        result == result_of(old(ids).next, 0),
{
    let ghost before = *region;
    let ghost ids_before = *ids;
    let outputs = build_operation(
        region,
        ids,
        "ref",
        values1(value),
        1,
        texts0(),
        Vec::new(),
        false,
    );
    proof {
        assert(all_regions_view(Seq::<Region>::empty()) =~= Seq::<RegionView>::empty());
        lemma_emitted_single(
            before,
            *region,
            ids_before,
            *ids,
            "ref"@,
            seq![value],
            Seq::<Seq<char>>::empty(),
            Seq::<Region>::empty(),
        );
    }
    outputs[0]
}

/// The form of a `symref` operation with identifier `id`.
pub open spec fn symref_shape(id: usize, sym: Seq<char>) -> OperationView {
    shape("symref"@, id, Seq::<Value>::empty(), 1, seq![sym], Seq::<RegionView>::empty(), false)
}

/// `symref`: The variable `sym`.
pub fn symref(region: &mut Region, ids: &mut IdSource, sym: &str) -> (result: Value)
    requires
        !old(region).is_terminated(),
    ensures
        emits(
            *old(region),
            *final(region),
            *old(ids),
            *final(ids),
            single(symref_shape(old(ids).next, sym@)),
        ),
        result == result_of(old(ids).next, 0),
{
    let ghost before = *region;
    let ghost ids_before = *ids;
    let outputs = build_operation(
        region,
        ids,
        "symref",
        Vec::new(),
        1,
        texts1(sym.to_owned()),
        Vec::new(),
        false,
    );
    proof {
        assert(all_regions_view(Seq::<Region>::empty()) =~= Seq::<RegionView>::empty());
        lemma_emitted_single(
            before,
            *region,
            ids_before,
            *ids,
            "symref"@,
            Seq::<Value>::empty(),
            seq![sym@],
            Seq::<Region>::empty(),
        );
    }
    outputs[0]
}

/// The form of a `member` operation with identifier `id`.
pub open spec fn member_shape(id: usize, value: Value, field: Member, reference: bool) -> OperationView {
    shape("member"@, id, seq![value], 1, seq![member_text(field), bool_text(reference)], Seq::<RegionView>::empty(), false)
}

/// `member`: The member `field` of `value`, by reference when `reference`.
pub fn member(region: &mut Region, ids: &mut IdSource, value: Value, field: &Member, reference: bool) -> (result: Value)
    requires
        !old(region).is_terminated(),
    ensures
        emits(
            *old(region),
            *final(region),
            *old(ids),
            *final(ids),
            single(member_shape(old(ids).next, value, *field, reference)),
        ),
        result == result_of(old(ids).next, 0),
{
    let ghost before = *region;
    let ghost ids_before = *ids;
    let outputs = build_operation(
        region,
        ids,
        "member",
        values1(value),
        1,
        texts2(field.display(), bool_to_text(reference)),
        Vec::new(),
        false,
    );
    proof {
        assert(all_regions_view(Seq::<Region>::empty()) =~= Seq::<RegionView>::empty());
        lemma_emitted_single(
            before,
            *region,
            ids_before,
            *ids,
            "member"@,
            seq![value],
            seq![member_text(*field), bool_text(reference)],
            Seq::<Region>::empty(),
        );
    }
    outputs[0]
}

/// The form of a `try` operation with identifier `id`.
pub open spec fn try_shape(id: usize, value: Value) -> OperationView {
    shape("try"@, id, seq![value], 1, Seq::<Seq<char>>::empty(), Seq::<RegionView>::empty(), false)
}

/// `try`: The success value of `value`, returning early on error.
pub fn try_(region: &mut Region, ids: &mut IdSource, value: Value) -> (result: Value)
    requires
        !old(region).is_terminated(),
    ensures
        emits(
            *old(region),
            *final(region),
            *old(ids),
            *final(ids),
            single(try_shape(old(ids).next, value)),
        ),
        result == result_of(old(ids).next, 0),
{
    let ghost before = *region;
    let ghost ids_before = *ids;
    let outputs = build_operation(
        region,
        ids,
        "try",
        values1(value),
        1,
        texts0(),
        Vec::new(),
        false,
    );
    proof {
        assert(all_regions_view(Seq::<Region>::empty()) =~= Seq::<RegionView>::empty());
        lemma_emitted_single(
            before,
            *region,
            ids_before,
            *ids,
            "try"@,
            seq![value],
            Seq::<Seq<char>>::empty(),
            Seq::<Region>::empty(),
        );
    }
    outputs[0]
}

/// The form of a `custom_expr` operation with identifier `id`.
pub open spec fn custom_expr_shape(id: usize, expr: Seq<char>) -> OperationView {
    shape("custom_expr"@, id, Seq::<Value>::empty(), 1, seq![expr], Seq::<RegionView>::empty(), false)
}

/// `custom_expr`: The given expression.
pub fn custom_expr(region: &mut Region, ids: &mut IdSource, expr: &str) -> (result: Value)
    requires
        !old(region).is_terminated(),
    ensures
        emits(
            *old(region),
            *final(region),
            *old(ids),
            *final(ids),
            single(custom_expr_shape(old(ids).next, expr@)),
        ),
        result == result_of(old(ids).next, 0),
{
    let ghost before = *region;
    let ghost ids_before = *ids;
    let outputs = build_operation(
        region,
        ids,
        "custom_expr",
        Vec::new(),
        1,
        texts1(expr.to_owned()),
        Vec::new(),
        false,
    );
    proof {
        assert(all_regions_view(Seq::<Region>::empty()) =~= Seq::<RegionView>::empty());
        lemma_emitted_single(
            before,
            *region,
            ids_before,
            *ids,
            "custom_expr"@,
            Seq::<Value>::empty(),
            seq![expr@],
            Seq::<Region>::empty(),
        );
    }
    outputs[0]
}

/// The form of a `ok` operation with identifier `id`.
pub open spec fn ok_shape(id: usize, value: Value) -> OperationView {
    shape("ok"@, id, seq![value], 1, Seq::<Seq<char>>::empty(), Seq::<RegionView>::empty(), false)
}

/// `ok`: `value` wrapped as success.
pub fn ok(region: &mut Region, ids: &mut IdSource, value: Value) -> (result: Value)
    requires
        !old(region).is_terminated(),
    ensures
        emits(
            *old(region),
            *final(region),
            *old(ids),
            *final(ids),
            single(ok_shape(old(ids).next, value)),
        ),
        result == result_of(old(ids).next, 0),
{
    let ghost before = *region;
    let ghost ids_before = *ids;
    let outputs = build_operation(
        region,
        ids,
        "ok",
        values1(value),
        1,
        texts0(),
        Vec::new(),
        false,
    );
    proof {
        assert(all_regions_view(Seq::<Region>::empty()) =~= Seq::<RegionView>::empty());
        lemma_emitted_single(
            before,
            *region,
            ids_before,
            *ids,
            "ok"@,
            seq![value],
            Seq::<Seq<char>>::empty(),
            Seq::<Region>::empty(),
        );
    }
    outputs[0]
}


/// How the bindings of a destructuring are listed: `member: variable`,
/// separated by `, `.
pub open spec fn bindings_text(bindings: Seq<(Member, String)>) -> Seq<char> {
    joined(bindings.map_values(|b: (Member, String)| member_text(b.0) + ": "@ + b.1@), ", "@)
}

/// The listing text of destructuring bindings.
pub fn bindings_to_text(bindings: &Vec<(Member, String)>) -> (r: String)
    ensures
        r@ == bindings_text(bindings@),
{
    let mut parts: Vec<Vec<char>> = Vec::new();
    let mut i: usize = 0;
    while i < bindings.len()
        invariant
            i <= bindings.len(),
            views(parts@) == bindings@.take(i as int).map_values(
                |b: (Member, String)| member_text(b.0) + ": "@ + b.1@,
            ),
        decreases bindings.len() - i,
    {
        let (m, v) = &bindings[i];
        let mut part = str_chars(m.display().as_str());
        append_str(&mut part, ": ");
        append_str(&mut part, v.as_str());
        let ghost before = parts@;
        parts.push(part);
        assert(views(parts@) =~= views(before).push(part@));
        i = i + 1;
        assert(views(parts@) =~= bindings@.take(i as int).map_values(
            |b: (Member, String)| member_text(b.0) + ": "@ + b.1@,
        ));
    }
    assert(bindings@.take(bindings.len() as int) =~= bindings@);
    chars_to_string(&join(&parts, ", "))
}

/// `yield`: Ends the region, with `values` as its results.
pub fn yield_(region: &mut Region, ids: &mut IdSource, values: Vec<Value>)
    requires
        !old(region).is_terminated(),
    ensures
        emitted(
            *old(region),
            *final(region),
            *old(ids),
            *final(ids),
            "yield"@,
            values@,
            0,
            Seq::<Seq<char>>::empty(),
            Seq::<Region>::empty(),
            true,
        ),
        final(region).is_terminated(),
{
    let _ = build_operation(region, ids, "yield", values, 0, texts0(), Vec::new(), true);
}

/// `destructure`: Binds the members of `structured`, a `ty`, to variables.
pub fn destructure(
    region: &mut Region,
    ids: &mut IdSource,
    structured: Value,
    ty: &str,
    bindings: &Vec<(Member, String)>,
)
    requires
        !old(region).is_terminated(),
    ensures
        emitted(
            *old(region),
            *final(region),
            *old(ids),
            *final(ids),
            "destructure"@,
            seq![structured],
            0,
            seq![ty@, bindings_text(bindings@)],
            Seq::<Region>::empty(),
            false,
        ),
{
    let _ = build_operation(
        region,
        ids,
        "destructure",
        values1(structured),
        0,
        texts2(ty.to_owned(), bindings_to_text(bindings)),
        Vec::new(),
        false,
    );
}

/// `use`: Brings `path` into scope.
pub fn use_(region: &mut Region, ids: &mut IdSource, path: &str)
    requires
        !old(region).is_terminated(),
    ensures
        emitted(
            *old(region),
            *final(region),
            *old(ids),
            *final(ids),
            "use"@,
            Seq::<Value>::empty(),
            0,
            seq![path@],
            Seq::<Region>::empty(),
            false,
        ),
{
    let outputs = build_operation(
        region,
        ids,
        "use",
        Vec::new(),
        0,
        texts1(path.to_owned()),
        Vec::new(),
        false,
    );
}

/// `sym`: Binds `value` to the variable `sym`.
pub fn sym(region: &mut Region, ids: &mut IdSource, value: Value, sym: &str)
    requires
        !old(region).is_terminated(),
    ensures
        emitted(
            *old(region),
            *final(region),
            *old(ids),
            *final(ids),
            "sym"@,
            seq![value],
            0,
            seq![sym@],
            Seq::<Region>::empty(),
            false,
        ),
{
    let outputs = build_operation(
        region,
        ids,
        "sym",
        values1(value),
        0,
        texts1(sym.to_owned()),
        Vec::new(),
        false,
    );
}

/// `tuple`: The tuple of `members`.
pub fn tuple(region: &mut Region, ids: &mut IdSource, members: Vec<Value>) -> (result: Value)
    requires
        !old(region).is_terminated(),
    ensures
        emitted(
            *old(region),
            *final(region),
            *old(ids),
            *final(ids),
            "tuple"@,
            members@,
            1,
            Seq::<Seq<char>>::empty(),
            Seq::<Region>::empty(),
            false,
        ),
        result == result_of(old(ids).next, 0),
{
    let outputs = build_operation(region, ids, "tuple", members, 1, texts0(), Vec::new(), false);
    outputs[0]
}

/// `struct`: A `struct_ty` built from the given members and values; its
/// attributes are the type and then each member.
pub fn struct_(
    region: &mut Region,
    ids: &mut IdSource,
    struct_ty: &str,
    members: &Vec<(Member, Value)>,
) -> (result: Value)
    requires
        !old(region).is_terminated(),
    ensures
        emitted(
            *old(region),
            *final(region),
            *old(ids),
            *final(ids),
            "struct"@,
            members@.map_values(|m: (Member, Value)| m.1),
            1,
            seq![struct_ty@] + members@.map_values(|m: (Member, Value)| member_text(m.0)),
            Seq::<Region>::empty(),
            false,
        ),
        result == result_of(old(ids).next, 0),
{
    let mut inputs: Vec<Value> = Vec::new();
    let mut attributes: Vec<String> = Vec::new();
    attributes.push(struct_ty.to_owned());
    let mut i: usize = 0;
    while i < members.len()
        invariant
            i <= members.len(),
            inputs@ == members@.take(i as int).map_values(|m: (Member, Value)| m.1),
            attributes@.map_values(|s: String| s@) == seq![struct_ty@] + members@.take(
                i as int,
            ).map_values(|m: (Member, Value)| member_text(m.0)),
        decreases members.len() - i,
    {
        let (m, v) = &members[i];
        inputs.push(*v);
        let ghost before = attributes@;
        let shown = m.display();
        let ghost shown_text = shown@;
        attributes.push(shown);
        assert(attributes@.map_values(|s: String| s@) =~= before.map_values(|s: String| s@).push(
            shown_text,
        ));
        i = i + 1;
        assert(inputs@ =~= members@.take(i as int).map_values(|m: (Member, Value)| m.1));
        assert(attributes@.map_values(|s: String| s@) =~= seq![struct_ty@] + members@.take(
            i as int,
        ).map_values(|m: (Member, Value)| member_text(m.0)));
    }
    assert(members@.take(members.len() as int) =~= members@);
    let outputs = build_operation(region, ids, "struct", inputs, 1, attributes, Vec::new(), false);
    outputs[0]
}


/// The text of an arm's guard, if it has one.
pub open spec fn guard_text(guard: Option<String>) -> Option<Seq<char>> {
    match guard {
        Some(g) => Some(g@),
        None => None,
    }
}

/// How a `match` lists an arm: its pattern, then ` if ` and its guard when
/// it has one.
pub open spec fn arm_attribute(pattern: Seq<char>, guard: Option<Seq<char>>) -> Seq<char> {
    match guard {
        Some(g) => pattern + " if "@ + g,
        None => pattern,
    }
}

/// The attributes of a `match`: one per arm.
pub open spec fn arm_attributes(arms: Seq<(String, Option<String>, Region)>) -> Seq<Seq<char>> {
    arms.map_values(|a: (String, Option<String>, Region)| arm_attribute(a.0@, guard_text(a.1)))
}

/// The regions of a `match`: one per arm.
pub open spec fn arm_regions(arms: Seq<(String, Option<String>, Region)>) -> Seq<Region> {
    arms.map_values(|a: (String, Option<String>, Region)| a.2)
}

/// `match`: matches `expr` against each arm's pattern (and guard, if any),
/// running the region of the first arm that matches; its result is that of
/// the region.
pub fn match_(
    region: &mut Region,
    ids: &mut IdSource,
    expr: Value,
    arms: Vec<(String, Option<String>, Region)>,
) -> (result: Value)
    requires
        !old(region).is_terminated(),
    ensures
        emitted(
            *old(region),
            *final(region),
            *old(ids),
            *final(ids),
            "match"@,
            seq![expr],
            1,
            arm_attributes(arms@),
            arm_regions(arms@),
            false,
        ),
        result == result_of(old(ids).next, 0),
{
    let ghost given = arms@;
    let n = arms.len();
    let mut rest = arms;
    let mut attributes: Vec<String> = Vec::new();
    let mut regions: Vec<Region> = Vec::new();
    let mut k: usize = 0;
    while rest.len() > 0
        invariant
            given.len() == n,
            k <= n,
            rest@ == given.skip(k as int),
            attributes@.map_values(|s: String| s@) == arm_attributes(given.take(k as int)),
            regions@ == arm_regions(given.take(k as int)),
        decreases rest.len(),
    {
        let (pattern, guard, body) = rest.remove(0);
        assert((pattern, guard, body) == given[k as int]);
        let mut text: Vec<char> = Vec::new();
        append_str(&mut text, pattern.as_str());
        match &guard {
            Some(g) => {
                append_str(&mut text, " if ");
                append_str(&mut text, g.as_str());
            },
            None => {},
        }
        let ghost before = attributes@;
        attributes.push(chars_to_string(&text));
        regions.push(body);
        proof {
            assert(attributes@.map_values(|s: String| s@) =~= before.map_values(|s: String| s@).push(
                arm_attribute(pattern@, guard_text(guard)),
            ));
        }
        k = k + 1;
        assert(rest@ =~= given.skip(k as int));
        assert(attributes@.map_values(|s: String| s@) =~= arm_attributes(given.take(k as int)));
        assert(regions@ =~= arm_regions(given.take(k as int)));
    }
    assert(given.take(k as int) =~= given);
    let outputs = build_operation(region, ids, "match", values1(expr), 1, attributes, regions, false);
    outputs[0]
}

/// `execute`: runs `body` in place; its result is what the body yields.
pub fn execute(region: &mut Region, ids: &mut IdSource, body: Region) -> (result: Value)
    requires
        !old(region).is_terminated(),
    ensures
        emitted(
            *old(region),
            *final(region),
            *old(ids),
            *final(ids),
            "execute"@,
            Seq::<Value>::empty(),
            1,
            Seq::<Seq<char>>::empty(),
            seq![body],
            false,
        ),
        result == result_of(old(ids).next, 0),
{
    let mut regions: Vec<Region> = Vec::new();
    let ghost b = body;
    regions.push(body);
    assert(regions@ =~= seq![b]);
    let outputs = build_operation(region, ids, "execute", Vec::new(), 1, texts0(), regions, false);
    outputs[0]
}

} // verus!
