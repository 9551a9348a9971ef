use sorbit_derive_impl::ir::nodes::{layout_plan, LayoutStep};
use sorbit_derive_impl::attribute::Member;
use sorbit_derive_impl::ir::builders::{
    and_then, block, deserialize_composite, deserialize_object, enclose, impl_deserialize, impl_serialize,
    into_bit_field, layout_de, layout_se, let_, make_struct, make_tuple, new_bit_field, ok, pack_bit_field,
    pack_object, serialize_composite, serialize_nothing, serialize_object, symref, try_, unpack_object,
};
use sorbit_derive_impl::ir::nodes::StructMember;

#[test]
fn layout_is_shown_with_alignment_and_rounding() {
    let laid_out = layout_se(serialize_object("x".to_string(), "x".to_string()), Some(1), Some(2), Some(3), Some(8));
    assert_eq!(laid_out.describe(), "layout(--2- 2*n| serialize_object(x) --8- 8*n|)");
    let offset_only = layout_de(deserialize_object("u8".to_string()), Some(4), None, Some(6), None);
    assert_eq!(offset_only.describe(), "layout(deserialize_object::<u8>())");
}

#[test]
fn language_nodes_are_shown() {
    let chained = and_then(serialize_nothing(), None, ok(symref("x".to_string())));
    assert_eq!(chained.describe(), "serialize_nothing().and_then(|_| Ok(x))");
    let bound = and_then(symref("a".to_string()), Some("b".to_string()), try_(symref("b".to_string())));
    assert_eq!(bound.describe(), "a.and_then(|b| b?)");
    let body = block(
        vec![let_(Some("a".to_string()), try_(deserialize_object("u8".to_string()))), let_(None, symref("z".to_string()))],
        symref("a".to_string()),
    );
    assert_eq!(body.describe(), "{ let a = deserialize_object::<u8>()?; let _ = z; a }");
    let tuple = make_tuple(vec![symref("a".to_string()), symref("b".to_string())]);
    assert_eq!(tuple.describe(), "(a, b)");
    let built = make_struct(
        "Foo".to_string(),
        vec![StructMember { member: Member::Named("m".to_string()), shown: "m".to_string(), value: symref("a".to_string()) }],
    );
    assert_eq!(built.describe(), "Foo{ (m, a) }");
    assert_eq!(enclose(symref("x".to_string()), "field x".to_string()).describe(), "enclose(x, field x)");
}

#[test]
fn bit_field_nodes_are_shown() {
    let packed = pack_bit_field(
        "bits".to_string(),
        "u8".to_string(),
        vec![
            pack_object("bits".to_string(), "x".to_string(), 0..4),
            pack_object("bits".to_string(), "y".to_string(), 4..8),
        ],
    );
    assert_eq!(packed.describe(), "bit_field{pack(x -> bits[0..4]), pack(y -> bits[4..8])}");
    assert_eq!(unpack_object("bits".to_string(), "u8".to_string(), 0..4).describe(), "unpack(bits[0..4] -> u8)");
    assert_eq!(new_bit_field("u16".to_string()).describe(), "new_bit_field::<u16>()");
    assert_eq!(into_bit_field(symref("raw".to_string())).describe(), "into_bit_field(raw)");
}

#[test]
fn implementations_are_shown() {
    let se = impl_serialize("Foo".to_string(), String::new(), serialize_composite(serialize_nothing()));
    assert_eq!(se.describe(), "impl Serialize for Foo => serialize_composite(serialize_nothing())");
    let de = impl_deserialize("Foo".to_string(), String::new(), deserialize_composite(deserialize_object("Foo".to_string())));
    assert_eq!(de.describe(), "impl Deserialize for Foo => deserialize_composite(deserialize_object::<Foo>())");
}

#[test]
fn layout_plan_orders_steps() {
    assert_eq!(
        layout_plan(Some(8), Some(4), Some(16), Some(2)),
        vec![
            LayoutStep::PadAfter(16),
            LayoutStep::AlignAfter(2),
            LayoutStep::Composite,
            LayoutStep::AlignBefore(4),
            LayoutStep::PadBefore(8),
        ]
    );
    assert_eq!(layout_plan(None, Some(4), None, None), vec![LayoutStep::AlignBefore(4)]);
    assert_eq!(layout_plan(None, None, None, Some(2)), vec![LayoutStep::AlignAfter(2), LayoutStep::Composite]);
    assert_eq!(layout_plan(None, None, None, None), vec![]);
}
