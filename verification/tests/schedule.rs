use sorbit_derive_impl::ir::dag::{Id, IdSource};
use sorbit_derive_impl::ir::operation::Operation;
use sorbit_derive_impl::ir::region::{Region, StatementForm};
use sorbit_derive_impl::ops::language::{destructure, self_, try_, tuple, yield_};
use sorbit_derive_impl::schedule::schedule;

#[test]
fn operations_in_dependency_order_stay_in_place() {
    let ids = vec![5, 6, 7];
    let inputs = vec![vec![], vec![5], vec![6, 5]];
    assert_eq!(schedule(&ids, &inputs), Ok(vec![0, 1, 2]));
}

#[test]
fn inputs_from_outside_the_region_do_not_constrain() {
    let ids = vec![5, 6];
    let inputs = vec![vec![100], vec![101, 5]];
    assert_eq!(schedule(&ids, &inputs), Ok(vec![0, 1]));
}

#[test]
fn an_input_produced_later_is_a_cycle() {
    let ids = vec![5, 6];
    let inputs = vec![vec![6], vec![]];
    let node = schedule(&ids, &inputs).unwrap_err();
    assert!(node < 2);
}

#[test]
fn an_operation_reading_its_own_result_is_a_cycle() {
    let ids = vec![5];
    let inputs = vec![vec![5]];
    assert_eq!(schedule(&ids, &inputs), Err(0));
}

#[test]
fn empty_region_has_no_statements() {
    assert_eq!(schedule(&vec![], &vec![]), Ok(vec![]));
}

#[test]
fn statements_bind_results_by_their_number() {
    let mut ids = IdSource::new();
    let mut region = Region::new(&mut ids, 0);
    let value = self_(&mut region, &mut ids);
    destructure(&mut region, &mut ids, value, "Foo", &vec![]);
    let checked = try_(&mut region, &mut ids, value);
    let pair = tuple(&mut region, &mut ids, vec![value, checked]);
    yield_(&mut region, &mut ids, vec![pair]);
    let statements = region.statements().unwrap();
    let forms: Vec<StatementForm> = statements.iter().map(|s| s.form).collect();
    assert_eq!(
        forms,
        vec![
            StatementForm::Bind,
            StatementForm::Discard,
            StatementForm::Bind,
            StatementForm::Bind,
            StatementForm::Terminator
        ]
    );
    let order: Vec<usize> = statements.iter().map(|s| s.operation).collect();
    assert_eq!(order, vec![0, 1, 2, 3, 4]);
}

#[test]
fn statements_refuse_a_value_used_before_it_is_made() {
    let mut ids = IdSource::new();
    let mut region = Region::new(&mut ids, 0);
    let later = Id::new(&mut ids);
    let early = try_(&mut region, &mut ids, later.value(0));
    let _ = early;
    let producer = Operation {
        name: "self".to_string(),
        id: later,
        terminator: false,
        inputs: vec![],
        outputs: vec![later.value(0)],
        attributes: vec![],
        regions: vec![],
    };
    let _ = region.append(producer);
    assert!(region.statements().is_err());
}
