use sorbit_derive_impl::attribute::Member;
use sorbit_derive_impl::utility::{deconstruct_pattern, deconstruct_pattern_explicit, GenericArgumentShape, TypeShape};

fn path(leading_colon: bool, segments: &[&str], argument: Option<&str>) -> TypeShape {
    TypeShape::Path {
        leading_colon,
        segments: segments.iter().map(|s| s.to_string()).collect(),
        last_arguments: argument.map(|ty| vec![GenericArgumentShape::Type(ty.to_string())]),
    }
}

fn check(ty: TypeShape, underlying: Option<&str>, is_phantom: bool) {
    assert_eq!(ty.phantom_underlying_type(), underlying.map(|s| s.to_string()));
    assert_eq!(ty.is_phantom(), is_phantom);
}

#[test]
fn phantom_type() {
    check(path(false, &["u8"], None), None, false);
    check(path(false, &["PhantomData"], Some("u8")), Some("u8"), true);
    check(path(false, &["marker", "PhantomData"], Some("u8")), Some("u8"), true);
    check(path(false, &["std", "marker", "PhantomData"], Some("u8")), Some("u8"), true);
    check(path(false, &["core", "marker", "PhantomData"], Some("u8")), Some("u8"), true);
    check(path(true, &["std", "marker", "PhantomData"], Some("u8")), Some("u8"), true);
    check(path(true, &["core", "marker", "PhantomData"], Some("u8")), Some("u8"), true);
    check(path(true, &["marker", "PhantomData"], Some("u8")), None, false);
    check(path(false, &["special", "PhantomData"], Some("u8")), None, false);
    check(path(true, &["special", "PhantomData"], Some("u8")), None, false);
    check(path(false, &["special", "marker", "PhantomData"], Some("u8")), None, false);
    check(path(true, &["special", "marker", "PhantomData"], Some("u8")), None, false);
}

#[test]
fn phantom_without_one_type_argument_stands_for_itself() {
    let two = TypeShape::Path {
        leading_colon: false,
        segments: vec!["PhantomData".to_string()],
        last_arguments: Some(vec![GenericArgumentShape::Type("u8".to_string()), GenericArgumentShape::Other]),
    };
    assert!(two.is_phantom());
    assert_eq!(two.phantom_underlying_type(), None);
    assert!(!TypeShape::Other.is_phantom());
}

#[test]
fn deconstruct_patterns() {
    let members = vec![Member::Named("a".to_string()), Member::Unnamed(1)];
    assert_eq!(deconstruct_pattern("Foo", &members), "Foo{ a, 1: m1 }");
    let bindings = vec![
        (Member::Named("a".to_string()), "a".to_string()),
        (Member::Named("b".to_string()), "x".to_string()),
        (Member::Unnamed(0), "v".to_string()),
    ];
    assert_eq!(deconstruct_pattern_explicit("Foo", &bindings), "Foo{ a, b: x, 0: v }");
    assert_eq!(deconstruct_pattern("Unit", &vec![]), "Unit{  }");
}
