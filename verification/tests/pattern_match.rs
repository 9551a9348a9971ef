use sorbit_derive_impl::ssa_ir::ir::{token_to_text, tokenize, OperationIds, Token, Value};

fn assert_listing_matches(operation: &str, pattern: &str) {
    if let Err(message) = sorbit_derive_impl::ssa_ir::ir::matches(operation, pattern) {
        panic!("{message}");
    }
}

#[test]
fn ir_matches_same_value() {
    let operation = "%a %a";
    let pattern = "%a %a";
    assert_listing_matches(operation, pattern);
}

#[test]
fn ir_matches_same_symbol() {
    let operation = "a";
    let pattern = "a";
    assert_listing_matches(operation, pattern);
}

#[test]
fn pattern_match_matches_same_value() {
    let operation = "%a %a";
    let pattern = "%a %a";
    assert_listing_matches(operation, pattern);
}

#[test]
fn pattern_match_matches_same_symbol() {
    let operation = "a";
    let pattern = "a";
    assert_listing_matches(operation, pattern);
}

#[test]
fn different_value_is_reported() {
    let result = sorbit_derive_impl::ssa_ir::ir::matches("%a %a", "%a %b");
    assert_eq!(
        result,
        Err("operation does not match pattern:\n   expected: %a %b \n   found:    %a %a \n                ^^"
            .to_string())
    );
}

#[test]
fn different_value_reverse_is_reported() {
    let result = sorbit_derive_impl::ssa_ir::ir::matches("%a %b", "%a %a");
    assert_eq!(
        result,
        Err("operation does not match pattern:\n   expected: %a %a \n   found:    %a %b \n                ^^"
            .to_string())
    );
}

#[test]
fn different_symbol_is_reported() {
    let result = sorbit_derive_impl::ssa_ir::ir::matches("a", "b");
    assert_eq!(
        result,
        Err("operation does not match pattern:\n   expected:  b \n   found:     a \n              ^".to_string())
    );
}

#[test]
fn renamed_values_match() {
    assert!(sorbit_derive_impl::ssa_ir::ir::matches("%1_0 = try %0_0", "%x = try %y").is_ok());
}

#[test]
fn value_renaming_must_be_one_to_one() {
    assert!(sorbit_derive_impl::ssa_ir::ir::matches("%1 %2", "%x %x").is_err());
}

#[test]
fn length_difference_is_reported() {
    let result = sorbit_derive_impl::ssa_ir::ir::matches("a b", "a");
    assert_eq!(result, Err("operation differs from pattern in length\noperation:\na b\npattern:\na".to_string()));
}

#[test]
fn separators_are_ignored() {
    assert!(sorbit_derive_impl::ssa_ir::ir::matches("a, b\n\tc", "a b c").is_ok());
}

#[test]
fn caret_spans_bytes_of_found_token() {
    let result = sorbit_derive_impl::ssa_ir::ir::matches("é", "b");
    assert_eq!(
        result,
        Err("operation does not match pattern:\n   expected:  b \n   found:     é \n              ^^".to_string())
    );
}

#[test]
fn context_is_limited_to_six_tokens() {
    let result = sorbit_derive_impl::ssa_ir::ir::matches("a b c d e f g h", "a b c d e f g x");
    assert_eq!(
        result,
        Err("operation does not match pattern:\n   expected: b c d e f g x \n   found:    b c d e f g h \n                         ^"
            .to_string())
    );
}

#[test]
fn tokenize_splits_listing() {
    let tokens = tokenize("%v = op[a, b] |%x| x").unwrap();
    assert_eq!(tokens.len(), 11);
    assert!(matches!(&tokens[0], Token::Value(s) if s.iter().collect::<String>() == "v"));
    assert!(matches!(&tokens[1], Token::Symbol(s) if s.iter().collect::<String>() == "="));
    assert!(matches!(&tokens[2], Token::Symbol(s) if s.iter().collect::<String>() == "op"));
    assert!(matches!(&tokens[3], Token::BracketOpen));
    assert!(matches!(&tokens[5], Token::Symbol(s) if s.iter().collect::<String>() == "b"));
    assert!(matches!(&tokens[6], Token::BracketClose));
    assert!(matches!(&tokens[7], Token::Pipe));
    assert!(matches!(&tokens[8], Token::Value(s) if s.iter().collect::<String>() == "x"));
    assert!(matches!(&tokens[9], Token::Pipe));
    assert!(matches!(&tokens[10], Token::Symbol(s) if s.iter().collect::<String>() == "x"));
}

#[test]
fn matching_composes() {
    let first = "%4_0 = try %3_0\nyield %4_0";
    let second = "%b = try %a\nyield %b";
    let third = "%y = try %x, yield %y";
    assert!(sorbit_derive_impl::ssa_ir::ir::matches(first, second).is_ok());
    assert!(sorbit_derive_impl::ssa_ir::ir::matches(second, third).is_ok());
    assert!(sorbit_derive_impl::ssa_ir::ir::matches(first, third).is_ok());
}

#[test]
#[should_panic]
fn pattern_match_matches_different_value() {
    assert_listing_matches("%a %a", "%a %b");
}

#[test]
#[should_panic]
fn pattern_match_matches_different_value_reverse() {
    assert_listing_matches("%a %b", "%a %a");
}

#[test]
#[should_panic]
fn pattern_match_matches_different_symbol() {
    assert_listing_matches("a", "b");
}

#[test]
#[should_panic]
fn ir_matches_different_value() {
    assert_listing_matches("%a %a", "%a %b");
}

#[test]
#[should_panic]
fn ir_matches_different_value_reverse() {
    assert_listing_matches("%a %b", "%a %a");
}

#[test]
#[should_panic]
fn ir_matches_different_symbol() {
    assert_listing_matches("a", "b");
}

#[test]
fn tokenize_round_trip() {
    let tokens = tokenize("%v = op[a, b] |%x|\tx,%").unwrap();
    assert!(tokens.iter().all(|t| !matches!(t, Token::Empty)));
    let texts: Vec<String> = tokens.iter().map(|t| token_to_text(t).into_iter().collect()).collect();
    let again = tokenize(&texts.join(" ")).unwrap();
    assert_eq!(again, tokens);
}

#[test]
fn matches_by_one_to_one_renaming() {
    assert_listing_matches("%a = f %b %a", "%x = f %y %x");
    assert!(sorbit_derive_impl::ssa_ir::ir::matches("%a = f %a", "%x = f %y").is_err());
    assert!(sorbit_derive_impl::ssa_ir::ir::matches("%a = f %b", "%x = f %x").is_err());
}

#[test]
fn standalone_values_are_distinct() {
    let mut ids = OperationIds::new();
    let a = Value::new_standalone(&mut ids);
    let b = Value::new_standalone(&mut ids);
    assert_eq!(a.index, 0);
    assert_eq!(b.index, 0);
    assert_ne!(a.parent, b.parent);
}
