use sorbit_derive_impl::ir_de::builders::{
    align, bit_field_from, block, construct, deserialize_composite, deserialize_impl, deserialize_object, enclose,
    let_, name, ok, pad, try_, unpack_object,
};
use sorbit_derive_impl::ir_de::nodes::{DeserializeNothing, Expr, Todo};

#[test]
fn deserialize_impl_is_shown_with_its_body() {
    let body = deserialize_composite(block(
        vec![let_(Some("a".to_string()), try_(deserialize_object("u8".to_string()))), let_(None, pad(4))],
        ok(construct("Foo".to_string(), vec!["a".to_string()], vec!["a".to_string()])),
    ));
    let implementation = deserialize_impl("Foo".to_string(), String::new(), body);
    assert_eq!(
        implementation.describe(),
        "impl Deserialize for Foo { composite{ { a = deserialize::<u8>()?; _ = pad(4); ok(Foo { a, }) } } }"
    );
}

#[test]
fn bit_field_expressions_are_shown() {
    let unpacked = unpack_object("bits".to_string(), "u8".to_string(), 4..7);
    assert_eq!(unpacked.describe(), "unpack(bits[4..7] -> u8)");
    let from = bit_field_from(name("raw".to_string()));
    assert_eq!(from.describe(), "bit_field(raw)");
}

#[test]
fn leaves_are_shown() {
    assert_eq!(align(8).describe(), "align(8)");
    assert_eq!(Expr::DeserializeNothing(DeserializeNothing).describe(), "deserialize_nothing()");
    assert_eq!(Expr::Todo(Todo).describe(), "todo!()");
    assert_eq!(enclose(name("x".to_string()), "field x".to_string()).describe(), "x.enclose(field x)");
    assert_eq!(construct("Unit".to_string(), vec![], vec![]).describe(), "Unit { }");
}
