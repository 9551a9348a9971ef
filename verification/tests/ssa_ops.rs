use sorbit_derive_impl::attribute::Member;
use sorbit_derive_impl::ssa_ir::ir::{OperationIds, Region, Rendering};
use sorbit_derive_impl::ssa_ir::ops::{
    ExecuteOp, ImplSerializeOp, MemberOp, PadOp, SelfOp, SerializeCompositeOp, SerializeObjectOp, StructOp,
    TryOp, UnpackBitFieldOp, YieldOp,
};

fn assert_listing_matches(operation: &str, pattern: &str) {
    if let Err(message) = sorbit_derive_impl::ssa_ir::ir::matches(operation, pattern) {
        panic!("{message}");
    }
}

#[test]
fn foo() {
    let mut ids = OperationIds::new();
    let body_arguments = Region::fresh_arguments(&mut ids, 1);
    let serializer = body_arguments[0];

    let composite_arguments = Region::fresh_arguments(&mut ids, 1);
    let composite_serializer = composite_arguments[0];
    let self_ = SelfOp::new(&mut ids);
    let executed_arguments = Region::fresh_arguments(&mut ids, 0);
    let member = MemberOp::new(&mut ids, self_.output(), Member::Named("foo".to_string()), true);
    let yield_member = YieldOp::new(&mut ids, vec![member.output()]);
    let execute = ExecuteOp::new(
        &mut ids,
        Region { arguments: executed_arguments, operations: vec![member.operation, yield_member.operation] },
    );
    let serialize_object = SerializeObjectOp::new(&mut ids, composite_serializer, execute.output(0));
    let yield_object = YieldOp::new(&mut ids, vec![serialize_object.output()]);
    let serialize_composite = SerializeCompositeOp::new(
        &mut ids,
        serializer,
        Region {
            arguments: composite_arguments,
            operations: vec![self_.operation, execute.operation, serialize_object.operation, yield_object.operation],
        },
    );
    let body = Region { arguments: body_arguments, operations: vec![serialize_composite.operation] };
    let impl_serialize = ImplSerializeOp::new(&mut ids, "Foo".to_string(), String::new(), body);

    let pattern = "
            impl_serialize |%serializer| [
                %0 = serialize_composite %serializer |%comp_ser| [
                    %1 = self,
                    %2 = execute || [
                        %01 = member[foo, &] %1,
                        yield %01,
                    ],
                    %3 = serialize_object %comp_ser %2,
                    yield %3,
                ],
            ]
        ";
    assert_listing_matches(&impl_serialize.operation.describe(true), pattern);
}

#[test]
fn execute_gives_the_results_of_its_yield() {
    let mut ids = OperationIds::new();
    let arguments = Region::fresh_arguments(&mut ids, 0);
    let a = SelfOp::new(&mut ids);
    let b = TryOp::new(&mut ids, a.output());
    let yielded = YieldOp::new(&mut ids, vec![a.output(), b.output()]);
    let execute = ExecuteOp::new(
        &mut ids,
        Region { arguments, operations: vec![a.operation, b.operation, yielded.operation] },
    );
    assert_eq!(execute.operation.num_outputs, 2);
    assert_eq!(execute.output(1).index, 1);
}

#[test]
fn execute_without_yield_gives_nothing() {
    let mut ids = OperationIds::new();
    let arguments = Region::fresh_arguments(&mut ids, 0);
    let a = SelfOp::new(&mut ids);
    let execute = ExecuteOp::new(&mut ids, Region { arguments, operations: vec![a.operation] });
    assert_eq!(execute.operation.num_outputs, 0);
    let empty = ExecuteOp::new(&mut ids, Region { arguments: vec![], operations: vec![] });
    assert_eq!(empty.operation.num_outputs, 0);
}

#[test]
fn member_and_struct_attributes() {
    let mut ids = OperationIds::new();
    let a = SelfOp::new(&mut ids);
    let by_value = MemberOp::new(&mut ids, a.output(), Member::Unnamed(3), false);
    assert_eq!(by_value.operation.attributes, vec!["3".to_string(), "*".to_string()]);
    let built = StructOp::new(
        &mut ids,
        "Point".to_string(),
        vec![(Member::Named("x".to_string()), a.output()), (Member::Unnamed(1), by_value.output())],
    );
    assert_eq!(built.operation.attributes, vec!["Point".to_string(), "x".to_string(), "1".to_string()]);
    assert_eq!(built.operation.inputs, vec![a.output(), by_value.output()]);
    assert_eq!(
        built.operation.rendering,
        Rendering::StructValue {
            ty: "Point".to_string(),
            members: vec![Member::Named("x".to_string()), Member::Unnamed(1)]
        }
    );
}

#[test]
fn pad_and_unpack_attributes() {
    let mut ids = OperationIds::new();
    let s = SelfOp::new(&mut ids);
    let pad = PadOp::new(&mut ids, s.output(), 12, true);
    assert_eq!(pad.operation.attributes, vec!["12".to_string()]);
    assert_eq!(pad.operation.rendering, Rendering::Pad { until: 12, serializing: true });
    let unpack = UnpackBitFieldOp::new(&mut ids, "u8".to_string(), s.output(), 4..7);
    assert_eq!(unpack.operation.attributes, vec!["u8".to_string(), "4..7".to_string()]);
    assert_eq!(unpack.operation.mnemonic, "unpack_bit_field");
}

#[test]
fn standalone_values_are_distinct_and_shown() {
    let mut ids = OperationIds::new();
    let a = sorbit_derive_impl::ssa_ir::ir::Value::new_standalone(&mut ids);
    let b = sorbit_derive_impl::ssa_ir::ir::Value::new_standalone(&mut ids);
    assert_ne!(a, b);
    assert_eq!(a.describe(), "%0_0");
    assert_eq!(b.to_ident(), "v1_0");
}
