use sorbit_derive_impl::attribute::{BitNumbering, ByteOrder};
use sorbit_derive_impl::structure::values::{
    bit_numbering_of_name, bit_range, bit_range_of_literals, byte_order_of_name, int_literal, BitRangeError,
};

#[test]
fn bit_range_single_bit() {
    assert_eq!(bit_range(5, None, false), Ok(5..6));
    assert_eq!(bit_range(0, None, true), Ok(0..1));
    assert_eq!(bit_range(254, None, false), Ok(254..255));
}

#[test]
fn bit_range_inclusive() {
    assert_eq!(bit_range(5, Some(7), true), Ok(5..8));
    assert_eq!(bit_range(0, Some(254), true), Ok(0..255));
}

#[test]
fn bit_range_half_open() {
    assert_eq!(bit_range(0, Some(4), false), Ok(0..4));
    assert_eq!(bit_range(3, Some(255), false), Ok(3..255));
}

#[test]
fn bit_range_out_of_range() {
    assert_eq!(bit_range(256, None, false), Err(BitRangeError::OutOfRange));
    assert_eq!(bit_range(1, Some(256), false), Err(BitRangeError::OutOfRange));
    assert_eq!(bit_range(300, Some(2), true), Err(BitRangeError::OutOfRange));
}

#[test]
fn bit_range_end_overflow() {
    assert_eq!(bit_range(255, None, false), Err(BitRangeError::EndOverflow));
    assert_eq!(bit_range(0, Some(255), true), Err(BitRangeError::EndOverflow));
}

#[test]
fn bit_range_of_literal_texts() {
    assert_eq!(bit_range_of_literals("5", Some("7"), true), Ok(5..8));
    assert_eq!(bit_range_of_literals("0", Some("4"), false), Ok(0..4));
    assert_eq!(bit_range_of_literals("7", None, false), Ok(7..8));
    assert_eq!(bit_range_of_literals("4u8", None, false), Ok(4..5));
    assert_eq!(bit_range_of_literals("0x1F", None, false), Ok(31..32));
    assert_eq!(bit_range_of_literals("1_0", Some("1_2"), false), Ok(10..12));
}

#[test]
fn bit_range_of_bad_literals() {
    assert_eq!(bit_range_of_literals("x", None, false), Err(BitRangeError::NotAnInteger));
    assert_eq!(bit_range_of_literals("1", Some("y"), true), Err(BitRangeError::NotAnInteger));
    assert_eq!(bit_range_of_literals("1000", None, false), Err(BitRangeError::OutOfRange));
    assert_eq!(bit_range_of_literals("0", Some("255"), true), Err(BitRangeError::EndOverflow));
}

#[test]
fn byte_order_names() {
    assert_eq!(byte_order_of_name("BigEndian"), Some(ByteOrder::BigEndian));
    assert_eq!(byte_order_of_name("big_endian"), Some(ByteOrder::BigEndian));
    assert_eq!(byte_order_of_name("LittleEndian"), Some(ByteOrder::LittleEndian));
    assert_eq!(byte_order_of_name("little_endian"), Some(ByteOrder::LittleEndian));
    assert_eq!(byte_order_of_name("Big"), None);
}

#[test]
fn bit_numbering_names() {
    assert_eq!(bit_numbering_of_name("LSB0"), Some(BitNumbering::LSB0));
    assert_eq!(bit_numbering_of_name("lsb0"), Some(BitNumbering::LSB0));
    assert_eq!(bit_numbering_of_name("MSB0"), Some(BitNumbering::MSB0));
    assert_eq!(bit_numbering_of_name("msb0"), Some(BitNumbering::MSB0));
    assert_eq!(bit_numbering_of_name("msb"), None);
}

#[test]
fn int_literal_values() {
    assert_eq!(int_literal("16"), Some(16));
    assert_eq!(int_literal("0x10"), Some(16));
    assert_eq!(int_literal("1_024u64"), Some(1024));
    assert_eq!(int_literal("x"), None);
    assert_eq!(int_literal("-1"), None);
}
