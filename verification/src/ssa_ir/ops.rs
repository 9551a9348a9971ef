//! The operations of the closure-based SSA representation: each builder
//! makes one operation, with a fresh identifier, its mnemonic and attributes
//! as listings show them, and how generated code writes it.
use vstd::prelude::*;

use crate::attribute::{member_text, number_to_text, range_text, range_to_text, Member};
use crate::ops::{texts0, texts1, texts2};
use crate::ssa_ir::ir::{following_id, Operation, OperationIds, Region, Rendering, Value};
use crate::text::decimal;

verus! {

/// `op` has identifier `id`, this mnemonic and these attributes, results
/// and inputs.
pub open spec fn is_ssa_op(
    op: Operation,
    id: u64,
    mnemonic: Seq<char>,
    attributes: Seq<Seq<char>>,
    num_outputs: nat,
    inputs: Seq<Value>,
) -> bool {
    &&& op.id == id
    &&& op.mnemonic@ == mnemonic
    &&& op.attributes@.map_values(|s: String| s@) == attributes
    &&& op.num_outputs == num_outputs
    &&& op.inputs@ == inputs
}

/// The first result of `op`.
pub open spec fn first_output(op: Operation) -> Value {
    Value { parent: op.id, index: 0 }
}

/// Makes the operation with these parts under a fresh identifier.
fn build(
    ids: &mut OperationIds,
    mnemonic: &str,
    attributes: Vec<String>,
    rendering: Rendering,
    num_outputs: usize,
    inputs: Vec<Value>,
    regions: Vec<Region>,
) -> (op: Operation)
    ensures
        is_ssa_op(
            op,
            old(ids).next,
            mnemonic@,
            attributes@.map_values(|s: String| s@),
            num_outputs as nat,
            inputs@,
        ),
        op.rendering == rendering,
        op.regions@ == regions@,
        final(ids).next == following_id(old(ids).next),
{
    Operation::new(ids, mnemonic.to_owned(), attributes, rendering, num_outputs, inputs, regions)
}

fn one_value(a: Value) -> (v: Vec<Value>)
    ensures
        v@ == seq![a],
{
    let mut v: Vec<Value> = Vec::new();
    v.push(a);
    assert(v@ =~= seq![a]);
    v
}

fn one_region(a: Region) -> (v: Vec<Region>)
    ensures
        v@ == seq![a],
{
    let mut v: Vec<Region> = Vec::new();
    v.push(a);
    assert(v@ =~= seq![a]);
    v
}

/// The first result of a built operation.
fn first_of(op: &Operation) -> (v: Value)
    requires
        op.num_outputs >= 1,
    ensures
        v == first_output(*op),
{
    op.output(0)
}

//------------------------------------------------------------------------------
// Trait implementations.
//------------------------------------------------------------------------------

/// `impl_serialize`: the `Serialize` implementation of `name`, whose body
/// takes the serializer.
pub struct ImplSerializeOp {
    pub operation: Operation,
}

impl ImplSerializeOp {
    pub fn new(ids: &mut OperationIds, name: String, generics: String, body: Region) -> (r: Self)
        ensures
            is_ssa_op(r.operation, old(ids).next, "impl_serialize"@, Seq::empty(), 0, Seq::empty()),
            r.operation.regions@ == seq![body],
            r.operation.rendering == (Rendering::ImplSerialize { name, generics }),
            final(ids).next == following_id(old(ids).next),
    {
        let operation = build(
            ids,
            "impl_serialize",
            texts0(),
            Rendering::ImplSerialize { name, generics },
            0,
            Vec::new(),
            one_region(body),
        );
        ImplSerializeOp { operation }
    }
}

/// `impl_deserialize`: the `Deserialize` implementation of `name`, whose
/// body takes the deserializer.
pub struct ImplDeserializeOp {
    pub operation: Operation,
}

impl ImplDeserializeOp {
    pub fn new(ids: &mut OperationIds, name: String, generics: String, body: Region) -> (r: Self)
        ensures
            is_ssa_op(r.operation, old(ids).next, "impl_deserialize"@, Seq::empty(), 0, Seq::empty()),
            r.operation.regions@ == seq![body],
            r.operation.rendering == (Rendering::ImplDeserialize { name, generics }),
            final(ids).next == following_id(old(ids).next),
    {
        let operation = build(
            ids,
            "impl_deserialize",
            texts0(),
            Rendering::ImplDeserialize { name, generics },
            0,
            Vec::new(),
            one_region(body),
        );
        ImplDeserializeOp { operation }
    }
}

//------------------------------------------------------------------------------
// Language.
//------------------------------------------------------------------------------

/// `self`: the value the method is called on.
pub struct SelfOp {
    pub operation: Operation,
}

impl SelfOp {
    pub fn new(ids: &mut OperationIds) -> (r: Self)
        ensures
            is_ssa_op(r.operation, old(ids).next, "self"@, Seq::empty(), 1, Seq::empty()),
            r.operation.regions@.len() == 0,
            r.operation.rendering == Rendering::SelfValue,
            final(ids).next == following_id(old(ids).next),
    {
        SelfOp { operation: build(ids, "self", texts0(), Rendering::SelfValue, 1, Vec::new(), Vec::new()) }
    }

    pub fn output(&self) -> (v: Value)
        requires
            self.operation.num_outputs >= 1,
        ensures
            v == first_output(self.operation),
    {
        first_of(&self.operation)
    }
}

/// `ref`: a reference to `value`.
pub struct RefOp {
    pub operation: Operation,
}

impl RefOp {
    pub fn new(ids: &mut OperationIds, value: Value) -> (r: Self)
        ensures
            is_ssa_op(r.operation, old(ids).next, "ref"@, Seq::empty(), 1, seq![value]),
            r.operation.regions@.len() == 0,
            r.operation.rendering == Rendering::Reference,
            final(ids).next == following_id(old(ids).next),
    {
        RefOp { operation: build(ids, "ref", texts0(), Rendering::Reference, 1, one_value(value), Vec::new()) }
    }

    pub fn output(&self) -> (v: Value)
        requires
            self.operation.num_outputs >= 1,
        ensures
            v == first_output(self.operation),
    {
        first_of(&self.operation)
    }
}

/// `yield`: ends a region with `values` as its results.
pub struct YieldOp {
    pub operation: Operation,
}

impl YieldOp {
    pub fn new(ids: &mut OperationIds, values: Vec<Value>) -> (r: Self)
        ensures
            is_ssa_op(r.operation, old(ids).next, "yield"@, Seq::empty(), 0, values@),
            r.operation.regions@.len() == 0,
            r.operation.rendering == Rendering::Yield,
            final(ids).next == following_id(old(ids).next),
    {
        YieldOp { operation: build(ids, "yield", texts0(), Rendering::Yield, 0, values, Vec::new()) }
    }
}

/// The number of results of running a region: those its closing `yield`
/// gives, or none when it does not end in a `yield`.
pub open spec fn execute_outputs(region: Region) -> nat {
    let ops = region.operations@;
    if ops.len() > 0 && ops.last().mnemonic@ == "yield"@ {
        ops.last().inputs@.len()
    } else {
        0
    }
}

/// `execute`: runs `region` in place, giving its results.
pub struct ExecuteOp {
    pub operation: Operation,
}

impl ExecuteOp {
    pub fn new(ids: &mut OperationIds, region: Region) -> (r: Self)
        ensures
            is_ssa_op(
                r.operation,
                old(ids).next,
                "execute"@,
                Seq::empty(),
                execute_outputs(region),
                Seq::empty(),
            ),
            r.operation.regions@ == seq![region],
            r.operation.rendering == Rendering::Execute,
            final(ids).next == following_id(old(ids).next),
    {
        let n = region.operations.len();
        let num_outputs = if n > 0 {
            proof {
                reveal_strlit("yield");
            }
            let last = &region.operations[n - 1];
            if crate::text::str_equal(last.mnemonic(), "yield") {
                last.inputs.len()
            } else {
                0
            }
        } else {
            0
        };
        let operation = build(
            ids,
            "execute",
            texts0(),
            Rendering::Execute,
            num_outputs,
            Vec::new(),
            one_region(region),
        );
        ExecuteOp { operation }
    }

    pub fn output(&self, index: usize) -> (v: Value)
        requires
            index < self.operation.num_outputs,
        ensures
            v == (Value { parent: self.operation.id, index }),
    {
        self.operation.output(index)
    }
}

/// How a member access is listed: the member, and `&` for a reference or
/// `*` for the value.
pub open spec fn member_attributes(member: Member, reference: bool) -> Seq<Seq<char>> {
    seq![member_text(member), if reference { "&"@ } else { "*"@ }]
}

/// `member`: the member `member` of `value`, by reference if asked.
pub struct MemberOp {
    pub operation: Operation,
}

impl MemberOp {
    pub fn new(ids: &mut OperationIds, value: Value, member: Member, reference: bool) -> (r: Self)
        ensures
            is_ssa_op(
                r.operation,
                old(ids).next,
                "member"@,
                member_attributes(member, reference),
                1,
                seq![value],
            ),
            r.operation.regions@.len() == 0,
            r.operation.rendering == (Rendering::MemberAccess { member, reference }),
            final(ids).next == following_id(old(ids).next),
    {
        let shown = member.display();
        let marker = if reference {
            "&".to_owned()
        } else {
            "*".to_owned()
        };
        proof {
            reveal_strlit("&");
            reveal_strlit("*");
        }
        let operation = build(
            ids,
            "member",
            texts2(shown, marker),
            Rendering::MemberAccess { member, reference },
            1,
            one_value(value),
            Vec::new(),
        );
        MemberOp { operation }
    }

    pub fn output(&self) -> (v: Value)
        requires
            self.operation.num_outputs >= 1,
        ensures
            v == first_output(self.operation),
    {
        first_of(&self.operation)
    }
}

/// `try`: `value` unwrapped, or its error returned.
pub struct TryOp {
    pub operation: Operation,
}

impl TryOp {
    pub fn new(ids: &mut OperationIds, value: Value) -> (r: Self)
        ensures
            is_ssa_op(r.operation, old(ids).next, "try"@, Seq::empty(), 1, seq![value]),
            r.operation.regions@.len() == 0,
            r.operation.rendering == Rendering::Question,
            final(ids).next == following_id(old(ids).next),
    {
        TryOp { operation: build(ids, "try", texts0(), Rendering::Question, 1, one_value(value), Vec::new()) }
    }

    pub fn output(&self) -> (v: Value)
        requires
            self.operation.num_outputs >= 1,
        ensures
            v == first_output(self.operation),
    {
        first_of(&self.operation)
    }
}

/// `ok`: `value` as a success.
pub struct OkOp {
    pub operation: Operation,
}

impl OkOp {
    pub fn new(ids: &mut OperationIds, value: Value) -> (r: Self)
        ensures
            is_ssa_op(r.operation, old(ids).next, "ok"@, Seq::empty(), 1, seq![value]),
            r.operation.regions@.len() == 0,
            r.operation.rendering == Rendering::OkValue,
            final(ids).next == following_id(old(ids).next),
    {
        OkOp { operation: build(ids, "ok", texts0(), Rendering::OkValue, 1, one_value(value), Vec::new()) }
    }

    pub fn output(&self) -> (v: Value)
        requires
            self.operation.num_outputs >= 1,
        ensures
            v == first_output(self.operation),
    {
        first_of(&self.operation)
    }
}

/// `tuple`: the tuple of `members`.
pub struct TupleOp {
    pub operation: Operation,
}

impl TupleOp {
    pub fn new(ids: &mut OperationIds, members: Vec<Value>) -> (r: Self)
        ensures
            is_ssa_op(r.operation, old(ids).next, "tuple"@, Seq::empty(), 1, members@),
            r.operation.regions@.len() == 0,
            r.operation.rendering == Rendering::Tuple,
            final(ids).next == following_id(old(ids).next),
    {
        TupleOp { operation: build(ids, "tuple", texts0(), Rendering::Tuple, 1, members, Vec::new()) }
    }

    pub fn output(&self) -> (v: Value)
        requires
            self.operation.num_outputs >= 1,
        ensures
            v == first_output(self.operation),
    {
        first_of(&self.operation)
    }
}

/// `struct`: a `ty` built from its members' values; listed with the type and
/// then each member.
pub struct StructOp {
    pub operation: Operation,
}

impl StructOp {
    pub fn new(ids: &mut OperationIds, ty: String, members: Vec<(Member, Value)>) -> (r: Self)
        ensures
            is_ssa_op(
                r.operation,
                old(ids).next,
                "struct"@,
                seq![ty@] + members@.map_values(|m: (Member, Value)| member_text(m.0)),
                1,
                members@.map_values(|m: (Member, Value)| m.1),
            ),
            r.operation.regions@.len() == 0,
            r.operation.rendering matches Rendering::StructValue { ty: t, members: names } && t == ty
                && names@ == members@.map_values(|m: (Member, Value)| m.0),
            final(ids).next == following_id(old(ids).next),
    {
        let ghost given = members@;
        let mut names: Vec<Member> = Vec::new();
        let mut values: Vec<Value> = Vec::new();
        let mut attributes: Vec<String> = Vec::new();
        attributes.push(ty.clone());
        let n = members.len();
        let mut rest = members;
        let mut k: usize = 0;
        while rest.len() > 0
            invariant
                given.len() == n,
                k <= given.len(),
                rest@ == given.skip(k as int),
                names@ == given.take(k as int).map_values(|m: (Member, Value)| m.0),
                values@ == given.take(k as int).map_values(|m: (Member, Value)| m.1),
                attributes@.map_values(|s: String| s@) == seq![ty@] + given.take(k as int).map_values(
                    |m: (Member, Value)| member_text(m.0),
                ),
            decreases rest.len(),
        {
            let (name, value) = rest.remove(0);
            assert((name, value) == given[k as int]);
            let shown = name.display();
            let ghost before = attributes@;
            attributes.push(shown);
            names.push(name);
            values.push(value);
            proof {
                assert(attributes@.map_values(|s: String| s@) =~= before.map_values(|s: String| s@).push(
                    member_text(given[k as int].0),
                ));
            }
            k = k + 1;
            assert(rest@ =~= given.skip(k as int));
            assert(names@ =~= given.take(k as int).map_values(|m: (Member, Value)| m.0));
            assert(values@ =~= given.take(k as int).map_values(|m: (Member, Value)| m.1));
            assert(attributes@.map_values(|s: String| s@) =~= seq![ty@] + given.take(k as int).map_values(
                |m: (Member, Value)| member_text(m.0),
            ));
        }
        assert(given.take(k as int) =~= given);
        let ty_text = ty;
        let operation = build(
            ids,
            "struct",
            attributes,
            Rendering::StructValue { ty: ty_text, members: names },
            1,
            values,
            Vec::new(),
        );
        StructOp { operation }
    }

    pub fn output(&self) -> (v: Value)
        requires
            self.operation.num_outputs >= 1,
        ensures
            v == first_output(self.operation),
    {
        first_of(&self.operation)
    }
}

//------------------------------------------------------------------------------
// Serialization.
//------------------------------------------------------------------------------

/// `pad`: pads (or skips, when deserializing) up to offset `until`; listed
/// with the offset.
pub struct PadOp {
    pub operation: Operation,
}

impl PadOp {
    pub fn new(ids: &mut OperationIds, serializer: Value, until: u64, serializing: bool) -> (r: Self)
        ensures
            is_ssa_op(r.operation, old(ids).next, "pad"@, seq![decimal(until as nat)], 1, seq![serializer]),
            r.operation.regions@.len() == 0,
            r.operation.rendering == (Rendering::Pad { until, serializing }),
            final(ids).next == following_id(old(ids).next),
    {
        let operation = build(
            ids,
            "pad",
            texts1(number_to_text(until)),
            Rendering::Pad { until, serializing },
            1,
            one_value(serializer),
            Vec::new(),
        );
        PadOp { operation }
    }

    pub fn output(&self) -> (v: Value)
        requires
            self.operation.num_outputs >= 1,
        ensures
            v == first_output(self.operation),
    {
        first_of(&self.operation)
    }
}

/// `align`: pads (or skips) to a multiple of `multiple_of`; listed with the
/// multiple.
pub struct AlignOp {
    pub operation: Operation,
}

impl AlignOp {
    pub fn new(ids: &mut OperationIds, serializer: Value, multiple_of: u64, serializing: bool) -> (r: Self)
        ensures
            is_ssa_op(
                r.operation,
                old(ids).next,
                "align"@,
                seq![decimal(multiple_of as nat)],
                1,
                seq![serializer],
            ),
            r.operation.regions@.len() == 0,
            r.operation.rendering == (Rendering::Align { multiple_of, serializing }),
            final(ids).next == following_id(old(ids).next),
    {
        let operation = build(
            ids,
            "align",
            texts1(number_to_text(multiple_of)),
            Rendering::Align { multiple_of, serializing },
            1,
            one_value(serializer),
            Vec::new(),
        );
        AlignOp { operation }
    }

    pub fn output(&self) -> (v: Value)
        requires
            self.operation.num_outputs >= 1,
        ensures
            v == first_output(self.operation),
    {
        first_of(&self.operation)
    }
}

/// `serialize_nothing`: serializes nothing, successfully.
pub struct SerializeNothingOp {
    pub operation: Operation,
}

impl SerializeNothingOp {
    pub fn new(ids: &mut OperationIds, serializer: Value) -> (r: Self)
        ensures
            is_ssa_op(r.operation, old(ids).next, "serialize_nothing"@, Seq::empty(), 1, seq![serializer]),
            r.operation.regions@.len() == 0,
            r.operation.rendering == Rendering::SerializeNothing,
            final(ids).next == following_id(old(ids).next),
    {
        let operation = build(
            ids,
            "serialize_nothing",
            texts0(),
            Rendering::SerializeNothing,
            1,
            one_value(serializer),
            Vec::new(),
        );
        SerializeNothingOp { operation }
    }

    pub fn output(&self) -> (v: Value)
        requires
            self.operation.num_outputs >= 1,
        ensures
            v == first_output(self.operation),
    {
        first_of(&self.operation)
    }
}

/// `serialize_object`: serializes `object` on `serializer`.
pub struct SerializeObjectOp {
    pub operation: Operation,
}

impl SerializeObjectOp {
    pub fn new(ids: &mut OperationIds, serializer: Value, object: Value) -> (r: Self)
        ensures
            is_ssa_op(
                r.operation,
                old(ids).next,
                "serialize_object"@,
                Seq::empty(),
                1,
                seq![serializer, object],
            ),
            r.operation.regions@.len() == 0,
            r.operation.rendering == Rendering::SerializeObject,
            final(ids).next == following_id(old(ids).next),
    {
        let mut inputs: Vec<Value> = Vec::new();
        inputs.push(serializer);
        inputs.push(object);
        assert(inputs@ =~= seq![serializer, object]);
        let operation = build(ids, "serialize_object", texts0(), Rendering::SerializeObject, 1, inputs, Vec::new());
        SerializeObjectOp { operation }
    }

    pub fn output(&self) -> (v: Value)
        requires
            self.operation.num_outputs >= 1,
        ensures
            v == first_output(self.operation),
    {
        first_of(&self.operation)
    }
}

/// `serialize_composite`: serializes what `body` serializes, on the
/// serializer that it takes, as one composite.
pub struct SerializeCompositeOp {
    pub operation: Operation,
}

impl SerializeCompositeOp {
    pub fn new(ids: &mut OperationIds, serializer: Value, body: Region) -> (r: Self)
        ensures
            is_ssa_op(r.operation, old(ids).next, "serialize_composite"@, Seq::empty(), 1, seq![serializer]),
            r.operation.regions@ == seq![body],
            r.operation.rendering == Rendering::SerializeComposite,
            final(ids).next == following_id(old(ids).next),
    {
        let operation = build(
            ids,
            "serialize_composite",
            texts0(),
            Rendering::SerializeComposite,
            1,
            one_value(serializer),
            one_region(body),
        );
        SerializeCompositeOp { operation }
    }

    pub fn output(&self) -> (v: Value)
        requires
            self.operation.num_outputs >= 1,
        ensures
            v == first_output(self.operation),
    {
        first_of(&self.operation)
    }
}

/// `deserialize_object`: deserializes a `ty`; listed with the type.
pub struct DeserializeObjectOp {
    pub operation: Operation,
}

impl DeserializeObjectOp {
    pub fn new(ids: &mut OperationIds, deserializer: Value, ty: String) -> (r: Self)
        ensures
            is_ssa_op(r.operation, old(ids).next, "deserialize_object"@, seq![ty@], 1, seq![deserializer]),
            r.operation.regions@.len() == 0,
            r.operation.rendering == (Rendering::DeserializeObject { ty }),
            final(ids).next == following_id(old(ids).next),
    {
        let shown = ty.clone();
        let operation = build(
            ids,
            "deserialize_object",
            texts1(shown),
            Rendering::DeserializeObject { ty },
            1,
            one_value(deserializer),
            Vec::new(),
        );
        DeserializeObjectOp { operation }
    }

    pub fn output(&self) -> (v: Value)
        requires
            self.operation.num_outputs >= 1,
        ensures
            v == first_output(self.operation),
    {
        first_of(&self.operation)
    }
}

/// `deserialize_composite`: deserializes what `body` deserializes, on the
/// deserializer that it takes, as one composite.
pub struct DeserializeCompositeOp {
    pub operation: Operation,
}

impl DeserializeCompositeOp {
    pub fn new(ids: &mut OperationIds, deserializer: Value, body: Region) -> (r: Self)
        ensures
            is_ssa_op(r.operation, old(ids).next, "deserialize_composite"@, Seq::empty(), 1, seq![deserializer]),
            r.operation.regions@ == seq![body],
            r.operation.rendering == Rendering::DeserializeComposite,
            final(ids).next == following_id(old(ids).next),
    {
        let operation = build(
            ids,
            "deserialize_composite",
            texts0(),
            Rendering::DeserializeComposite,
            1,
            one_value(deserializer),
            one_region(body),
        );
        DeserializeCompositeOp { operation }
    }

    pub fn output(&self) -> (v: Value)
        requires
            self.operation.num_outputs >= 1,
        ensures
            v == first_output(self.operation),
    {
        first_of(&self.operation)
    }
}

//------------------------------------------------------------------------------
// Bit fields.
//------------------------------------------------------------------------------

/// `empty_bit_field`: a bit field stored as `packed_ty` with no bit set;
/// listed with the type.
pub struct EmptyBitFieldOp {
    pub operation: Operation,
}

impl EmptyBitFieldOp {
    pub fn new(ids: &mut OperationIds, packed_ty: String) -> (r: Self)
        ensures
            is_ssa_op(r.operation, old(ids).next, "empty_bit_field"@, seq![packed_ty@], 1, Seq::empty()),
            r.operation.regions@.len() == 0,
            r.operation.rendering == (Rendering::EmptyBitField { packed_ty }),
            final(ids).next == following_id(old(ids).next),
    {
        let shown = packed_ty.clone();
        let operation = build(
            ids,
            "empty_bit_field",
            texts1(shown),
            Rendering::EmptyBitField { packed_ty },
            1,
            Vec::new(),
            Vec::new(),
        );
        EmptyBitFieldOp { operation }
    }

    pub fn output(&self) -> (v: Value)
        requires
            self.operation.num_outputs >= 1,
        ensures
            v == first_output(self.operation),
    {
        first_of(&self.operation)
    }
}

/// `into_bit_field`: the bit field that the raw bits `packed` hold.
pub struct IntoBitFieldOp {
    pub operation: Operation,
}

impl IntoBitFieldOp {
    pub fn new(ids: &mut OperationIds, packed: Value) -> (r: Self)
        ensures
            is_ssa_op(r.operation, old(ids).next, "into_bit_field"@, Seq::empty(), 1, seq![packed]),
            r.operation.regions@.len() == 0,
            r.operation.rendering == Rendering::IntoBitField,
            final(ids).next == following_id(old(ids).next),
    {
        let operation = build(
            ids,
            "into_bit_field",
            texts0(),
            Rendering::IntoBitField,
            1,
            one_value(packed),
            Vec::new(),
        );
        IntoBitFieldOp { operation }
    }

    pub fn output(&self) -> (v: Value)
        requires
            self.operation.num_outputs >= 1,
        ensures
            v == first_output(self.operation),
    {
        first_of(&self.operation)
    }
}

/// `into_raw_bits`: the raw bits of `bit_field`.
pub struct IntoRawBitsOp {
    pub operation: Operation,
}

impl IntoRawBitsOp {
    pub fn new(ids: &mut OperationIds, bit_field: Value) -> (r: Self)
        ensures
            is_ssa_op(r.operation, old(ids).next, "into_raw_bits"@, Seq::empty(), 1, seq![bit_field]),
            r.operation.regions@.len() == 0,
            r.operation.rendering == Rendering::IntoRawBits,
            final(ids).next == following_id(old(ids).next),
    {
        let operation = build(
            ids,
            "into_raw_bits",
            texts0(),
            Rendering::IntoRawBits,
            1,
            one_value(bit_field),
            Vec::new(),
        );
        IntoRawBitsOp { operation }
    }

    pub fn output(&self) -> (v: Value)
        requires
            self.operation.num_outputs >= 1,
        ensures
            v == first_output(self.operation),
    {
        first_of(&self.operation)
    }
}

/// `pack_bit_field`: `bit_field` with `value` packed into `bits`; listed
/// with the bits.
pub struct PackBitFieldOp {
    pub operation: Operation,
}

impl PackBitFieldOp {
    pub fn new(
        ids: &mut OperationIds,
        serializer: Value,
        value: Value,
        bit_field: Value,
        bits: std::ops::Range<u8>,
    ) -> (r: Self)
        ensures
            is_ssa_op(
                r.operation,
                old(ids).next,
                "pack_bit_field"@,
                seq![range_text(bits.start, bits.end)],
                1,
                seq![serializer, value, bit_field],
            ),
            r.operation.regions@.len() == 0,
            r.operation.rendering == (Rendering::PackBitField { bits }),
            final(ids).next == following_id(old(ids).next),
    {
        let mut inputs: Vec<Value> = Vec::new();
        inputs.push(serializer);
        inputs.push(value);
        inputs.push(bit_field);
        assert(inputs@ =~= seq![serializer, value, bit_field]);
        let shown = range_to_text(bits.start, bits.end);
        let operation = build(
            ids,
            "pack_bit_field",
            texts1(shown),
            Rendering::PackBitField { bits },
            1,
            inputs,
            Vec::new(),
        );
        PackBitFieldOp { operation }
    }

    pub fn output(&self) -> (v: Value)
        requires
            self.operation.num_outputs >= 1,
        ensures
            v == first_output(self.operation),
    {
        first_of(&self.operation)
    }
}

/// `unpack_bit_field`: the `ty` held in `bits` of `bit_field`; listed with
/// the type and the bits.
pub struct UnpackBitFieldOp {
    pub operation: Operation,
}

impl UnpackBitFieldOp {
    pub fn new(ids: &mut OperationIds, ty: String, bit_field: Value, bits: std::ops::Range<u8>) -> (r: Self)
        ensures
            is_ssa_op(
                r.operation,
                old(ids).next,
                "unpack_bit_field"@,
                seq![ty@, range_text(bits.start, bits.end)],
                1,
                seq![bit_field],
            ),
            r.operation.regions@.len() == 0,
            r.operation.rendering == (Rendering::UnpackBitField { ty, bits }),
            final(ids).next == following_id(old(ids).next),
    {
        let shown = ty.clone();
        let range = range_to_text(bits.start, bits.end);
        let operation = build(
            ids,
            "unpack_bit_field",
            texts2(shown, range),
            Rendering::UnpackBitField { ty, bits },
            1,
            one_value(bit_field),
            Vec::new(),
        );
        UnpackBitFieldOp { operation }
    }

    pub fn output(&self) -> (v: Value)
        requires
            self.operation.num_outputs >= 1,
        ensures
            v == first_output(self.operation),
    {
        first_of(&self.operation)
    }
}

} // verus!
