use sorbit_derive_impl::ir::dag::{Id, IdSource};
use sorbit_derive_impl::ir::region::Region;
use sorbit_derive_impl::ops::language::{match_, yield_};

#[test]
fn match_listing_alternate() {
    let mut ids = IdSource::new();
    let mut region = Region::new(&mut ids, 0);
    let value = Id::new(&mut ids).value(0);
    let mut some_arm = Region::new(&mut ids, 0);
    yield_(&mut some_arm, &mut ids, vec![value]);
    let mut other_arm = Region::new(&mut ids, 0);
    yield_(&mut other_arm, &mut ids, vec![]);
    let result = match_(
        &mut region,
        &mut ids,
        value,
        vec![
            ("Some(x)".to_string(), Some("x > 0".to_string()), some_arm),
            ("_".to_string(), None, other_arm),
        ],
    );
    let v = value.to_text();
    let r = result.to_text();
    let expected = format!(
        "{{\n    {r} = match {v} {{\n        Some(x) if x > 0 => {{\n            yield {v}\n        }}\n        _ => {{\n            yield\n        }}\n    }}\n}}"
    );
    assert_eq!(region.to_string(true), expected);
}

#[test]
fn match_listing_plain() {
    let mut ids = IdSource::new();
    let mut region = Region::new(&mut ids, 0);
    let value = Id::new(&mut ids).value(0);
    let mut arm = Region::new(&mut ids, 0);
    yield_(&mut arm, &mut ids, vec![value]);
    let result = match_(&mut region, &mut ids, value, vec![("_".to_string(), None, arm)]);
    let v = value.to_text();
    let r = result.to_text();
    assert_eq!(region.to_string(false), format!("{{\n{r} = match {v} {{ _ => {{\nyield {v}\n}} }}\n}}"));
    assert_eq!(region.operations()[0].attributes, vec!["_".to_string()]);
}

#[test]
fn execute_listing() {
    let mut ids = IdSource::new();
    let mut region = Region::new(&mut ids, 0);
    let value = Id::new(&mut ids).value(0);
    let mut body = Region::new(&mut ids, 0);
    yield_(&mut body, &mut ids, vec![value]);
    let result = sorbit_derive_impl::ops::language::execute(&mut region, &mut ids, body);
    let v = value.to_text();
    let r = result.to_text();
    assert_eq!(region.to_string(false), format!("{{\n{r} = execute {{\nyield {v}\n}}\n}}"));
}

#[test]
fn use_listing() {
    let mut ids = IdSource::new();
    let mut region = Region::new(&mut ids, 0);
    sorbit_derive_impl::ops::language::use_(&mut region, &mut ids, "::sorbit::bit::BitField");
    assert_eq!(region.to_string(false), "{\nuse [::sorbit::bit::BitField]\n}");
}
