use sorbit_derive_impl::ir_se::nodes::{Align, Chain, Expr, Pad};

fn pad(until: u64) -> Expr {
    Expr::Pad(Pad { until })
}

fn align(multiple_of: u64) -> Expr {
    Expr::Align(Align { multiple_of })
}

#[test]
fn flatten_splices_leading_chain() {
    let inner = Chain::new(vec![pad(1), pad(2)], vec![None]);
    let chain = Chain::new(vec![Expr::Chain(inner), align(4)], vec![Some("x".to_string())]);
    let expected = Chain::new(vec![pad(1), pad(2), align(4)], vec![None, Some("x".to_string())]);
    assert_eq!(chain.flatten(), expected);
}

#[test]
fn flatten_splices_discarded_chain() {
    let inner = Chain::new(vec![pad(2), align(4)], vec![Some("y".to_string())]);
    let chain = Chain::new(vec![pad(1), Expr::Chain(inner)], vec![None]);
    let expected = Chain::new(vec![pad(1), pad(2), align(4)], vec![None, Some("y".to_string())]);
    assert_eq!(chain.flatten(), expected);
}

#[test]
fn flatten_keeps_bound_chain() {
    let inner = Chain::new(vec![pad(2), align(4)], vec![None]);
    let chain = Chain::new(vec![pad(1), Expr::Chain(inner)], vec![Some("z".to_string())]);
    let inner_again = Chain::new(vec![pad(2), align(4)], vec![None]);
    let expected = Chain::new(vec![pad(1), Expr::Chain(inner_again)], vec![Some("z".to_string())]);
    assert_eq!(chain.flatten(), expected);
}

#[test]
fn flatten_of_flat_chain_is_unchanged() {
    let chain = Chain::new(vec![pad(1), align(2), pad(3)], vec![None, Some("v".to_string())]);
    let same = Chain::new(vec![pad(1), align(2), pad(3)], vec![None, Some("v".to_string())]);
    assert_eq!(chain.flatten(), same);
}
