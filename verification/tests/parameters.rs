use sorbit_derive_impl::structure::parameters::{
    check_field_parameters, check_invalid_parameters, check_struct_parameters, error_message, field_kind,
    find_redefinition, FieldKind, ParameterError,
};
use sorbit_derive_impl::structure::parse::{BitFieldStorageProperties, FieldLayoutProperties};

fn keys(names: &[&str]) -> Vec<String> {
    names.iter().map(|name| name.to_string()).collect()
}

#[test]
fn accepted_parameter_names() {
    assert_eq!(FieldLayoutProperties::accepted_parameters(), keys(&["byte_order", "offset", "align", "round"]));
    assert_eq!(BitFieldStorageProperties::accepted_parameters(), keys(&["repr", "bit_numbering"]));
}

#[test]
fn field_without_parameters_is_direct() {
    assert_eq!(check_field_parameters(&keys(&[])), Ok(FieldKind::Direct));
}

#[test]
fn field_with_layout_is_direct() {
    assert_eq!(check_field_parameters(&keys(&["offset", "align", "round"])), Ok(FieldKind::Direct));
}

#[test]
fn field_with_bits_and_bit_field_is_bit() {
    let given = keys(&["bit_field", "bits", "offset", "align", "round"]);
    assert_eq!(field_kind(&given), FieldKind::Bit);
    assert_eq!(check_field_parameters(&given), Ok(FieldKind::Bit));
}

#[test]
fn field_with_layout_redefined() {
    let given = keys(&["align", "align"]);
    assert_eq!(find_redefinition(&given), Some(1));
    let error = check_field_parameters(&given).unwrap_err();
    assert_eq!(error, ParameterError::Redefined(1));
    assert_eq!(error_message(error, &given, false), "the parameter `align` has already been defined");
}

#[test]
fn redefinition_comes_before_refusal() {
    let given = keys(&["invalid_key", "offset", "offset"]);
    assert_eq!(check_field_parameters(&given), Err(ParameterError::Redefined(2)));
}

#[test]
fn field_with_invalid_key() {
    let given = keys(&["align", "invalid_key"]);
    let error = check_field_parameters(&given).unwrap_err();
    assert_eq!(error, ParameterError::NotAccepted(1));
    assert_eq!(error_message(error, &given, false), "parameter is not accepted here");
}

#[test]
fn direct_field_refuses_storage_parameters() {
    assert_eq!(check_field_parameters(&keys(&["repr"])), Err(ParameterError::NotAccepted(0)));
}

#[test]
fn bit_field_member_without_bit_field() {
    let given = keys(&["bits"]);
    let error = check_field_parameters(&given).unwrap_err();
    assert_eq!(error, ParameterError::MissingStorageId);
    assert_eq!(
        error_message(error, &given, false),
        "this bit field is missing the storage identifier, add `bit_field=<IDENTIFIER>` to the attribute"
    );
}

#[test]
fn bit_field_member_without_bits() {
    let given = keys(&["bit_field", "repr"]);
    let error = check_field_parameters(&given).unwrap_err();
    assert_eq!(error, ParameterError::MissingBitRange);
    assert_eq!(
        error_message(error, &given, false),
        "this bit field is missing the bit range, add `bits=<S>..<E>` or `bits=<B>` to the attribute"
    );
}

#[test]
fn struct_parameters_accepted() {
    assert_eq!(check_struct_parameters(&keys(&["byte_order", "len", "round"])), Ok(()));
}

#[test]
fn struct_with_invalid_key() {
    let given = keys(&["len", "offset"]);
    let error = check_struct_parameters(&given).unwrap_err();
    assert_eq!(error, ParameterError::NotAccepted(1));
    assert_eq!(error_message(error, &given, true), "invalid parameter");
}

#[test]
fn first_refused_parameter() {
    let accepted = keys(&["a", "b"]);
    assert_eq!(check_invalid_parameters(&keys(&["a", "c", "d"]), &accepted), Some(1));
    assert_eq!(check_invalid_parameters(&keys(&["b", "a"]), &accepted), None);
}
