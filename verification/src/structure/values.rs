//! Reading the values of attribute parameters: integer literals, bit ranges,
//! byte orders and bit numberings.
use vstd::prelude::*;

use crate::attribute::{BitNumbering, ByteOrder};
use crate::text::str_equal;

verus! {

/// The value of an integer literal written as `text` (as `syn` reads it:
/// with or without a type suffix, in any base, with underscores), or `None`
/// when `text` is no integer literal or its value does not fit in a `u64`.
pub uninterp spec fn int_literal_value(text: Seq<char>) -> Option<u64>;

/// Reads an integer literal with `syn` (`syn::parse_str::<syn::LitInt>`,
/// then `LitInt::base10_parse::<u64>`).
///
/// Trusted: the result depends on the text alone, and is named
/// [`int_literal_value`]; neither call panics, a text that is no literal or
/// a value that does not fit gives `None`.
#[verifier::external_body]
fn read_int_literal(text: &str) -> (r: Option<u64>)
    ensures
        r == int_literal_value(text@),
{
    match syn::parse_str::<syn::LitInt>(text) {
        Ok(lit) => lit.base10_parse::<u64>().ok(),
        Err(_) => None,
    }
}

/// The value of an integer parameter (`offset`, `align`, `round`, `len`)
/// written as the literal `text`, or `None` where it is no integer literal
/// or does not fit in a `u64`.
pub fn int_literal(text: &str) -> (r: Option<u64>)
    ensures
        r == int_literal_value(text@),
{
    read_int_literal(text)
}

/// Why a bit range is refused.
#[derive(Clone, Copy, PartialEq, Eq, Structural, Debug)]
pub enum BitRangeError {
    /// A bound is no integer literal.
    NotAnInteger,
    /// A bound does not fit in a `u8`.
    OutOfRange,
    /// The end, one past the last bit, does not fit in a `u8`.
    EndOverflow,
}

/// The half-open range of bits that `bits = start`, `bits = start..end` or
/// `bits = start..=end` gives: a single bit `b` is `b..b + 1`, an inclusive
/// range ends one past its last bit, a half-open range is kept as written.
pub open spec fn bit_range_outcome(start: u64, end: Option<u64>, inclusive: bool) -> Result<(u8, u8), BitRangeError> {
    match end {
        None => if start > 255 {
            Err(BitRangeError::OutOfRange)
        } else if start == 255 {
            Err(BitRangeError::EndOverflow)
        } else {
            Ok((start as u8, (start + 1) as u8))
        },
        Some(e) => if start > 255 || e > 255 {
            Err(BitRangeError::OutOfRange)
        } else if inclusive && e == 255 {
            Err(BitRangeError::EndOverflow)
        } else if inclusive {
            Ok((start as u8, (e + 1) as u8))
        } else {
            Ok((start as u8, e as u8))
        },
    }
}

/// The bit range of a `bits` parameter from its bounds' values: `end` is
/// `None` for a single bit, and `inclusive` tells `..=` from `..`.
pub fn bit_range(start: u64, end: Option<u64>, inclusive: bool) -> (r: Result<core::ops::Range<u8>, BitRangeError>)
    ensures
        match bit_range_outcome(start, end, inclusive) {
            Ok((s, e)) => r matches Ok(range) && range.start == s && range.end == e,
            Err(error) => r == Err::<core::ops::Range<u8>, BitRangeError>(error),
        },
{
    match end {
        None => {
            if start > 255 {
                Err(BitRangeError::OutOfRange)
            } else if start == 255 {
                Err(BitRangeError::EndOverflow)
            } else {
                let s: u8 = start as u8;
                Ok(s..s + 1)
            }
        },
        Some(e) => {
            if start > 255 || e > 255 {
                Err(BitRangeError::OutOfRange)
            } else if inclusive && e == 255 {
                Err(BitRangeError::EndOverflow)
            } else {
                let s: u8 = start as u8;
                let last: u8 = e as u8;
                if inclusive {
                    Ok(s..last + 1)
                } else {
                    Ok(s..last)
                }
            }
        },
    }
}

/// The bit range of a `bits` parameter from the texts of its bound
/// literals, as [`int_literal_value`] reads them and [`bit_range_outcome`]
/// says.
pub open spec fn literal_bit_range_outcome(
    start: Seq<char>,
    end: Option<Seq<char>>,
    inclusive: bool,
) -> Result<(u8, u8), BitRangeError> {
    match int_literal_value(start) {
        None => Err(BitRangeError::NotAnInteger),
        Some(s) => match end {
            None => bit_range_outcome(s, None, inclusive),
            Some(e) => match int_literal_value(e) {
                None => Err(BitRangeError::NotAnInteger),
                Some(v) => bit_range_outcome(s, Some(v), inclusive),
            },
        },
    }
}

/// The characters of an optional text.
pub open spec fn text_view(text: Option<&str>) -> Option<Seq<char>> {
    match text {
        Some(t) => Some(t@),
        None => None,
    }
}

/// Reads a `bits` parameter written as the literal `start`, or as the range
/// `start..end` (`start..=end` when `inclusive`).
pub fn bit_range_of_literals(start: &str, end: Option<&str>, inclusive: bool) -> (r: Result<core::ops::Range<u8>, BitRangeError>)
    ensures
        match literal_bit_range_outcome(start@, text_view(end), inclusive) {
            Ok((s, e)) => r matches Ok(range) && range.start == s && range.end == e,
            Err(error) => r == Err::<core::ops::Range<u8>, BitRangeError>(error),
        },
{
    let s = match read_int_literal(start) {
        Some(s) => s,
        None => return Err(BitRangeError::NotAnInteger),
    };
    match end {
        None => bit_range(s, None, inclusive),
        Some(text) => match read_int_literal(text) {
            Some(e) => bit_range(s, Some(e), inclusive),
            None => Err(BitRangeError::NotAnInteger),
        },
    }
}

/// The byte order that a parameter value names.
pub open spec fn byte_order_named(name: Seq<char>) -> Option<ByteOrder> {
    if name == "BigEndian"@ || name == "big_endian"@ {
        Some(ByteOrder::BigEndian)
    } else if name == "LittleEndian"@ || name == "little_endian"@ {
        Some(ByteOrder::LittleEndian)
    } else {
        None
    }
}

/// The byte order named `name`, if it names one.
pub fn byte_order_of_name(name: &str) -> (r: Option<ByteOrder>)
    ensures
        r == byte_order_named(name@),
{
    if str_equal(name, "BigEndian") || str_equal(name, "big_endian") {
        Some(ByteOrder::BigEndian)
    } else if str_equal(name, "LittleEndian") || str_equal(name, "little_endian") {
        Some(ByteOrder::LittleEndian)
    } else {
        None
    }
}

/// The bit numbering that a parameter value names.
pub open spec fn bit_numbering_named(name: Seq<char>) -> Option<BitNumbering> {
    if name == "LSB0"@ || name == "lsb0"@ {
        Some(BitNumbering::LSB0)
    } else if name == "MSB0"@ || name == "msb0"@ {
        Some(BitNumbering::MSB0)
    } else {
        None
    }
}

/// The bit numbering named `name`, if it names one.
pub fn bit_numbering_of_name(name: &str) -> (r: Option<BitNumbering>)
    ensures
        r == bit_numbering_named(name@),
{
    if str_equal(name, "LSB0") || str_equal(name, "lsb0") {
        Some(BitNumbering::LSB0)
    } else if str_equal(name, "MSB0") || str_equal(name, "msb0") {
        Some(BitNumbering::MSB0)
    } else {
        None
    }
}

} // verus!
