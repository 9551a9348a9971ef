//! The settings that attributes give a type or a field, and how they are
//! shown in operation listings.
use vstd::prelude::*;

use crate::text::{append_decimal, chars_to_string, decimal, str_chars};

verus! {

/// The byte order of multi-byte values.
#[derive(Clone, Copy, PartialEq, Eq, Structural, Debug)]
pub enum ByteOrder {
    BigEndian,
    LittleEndian,
}

/// Which end of a bit field bit 0 is at.
#[derive(Clone, Copy, PartialEq, Eq, Structural, Debug)]
pub enum BitNumbering {
    LSB0,
    MSB0,
}

/// A member of a struct: a named field or the index of a tuple field.
#[derive(PartialEq, Eq, Debug)]
pub enum Member {
    Named(String),
    Unnamed(u32),
}

/// How a field's value is turned into what is serialized.
#[derive(PartialEq, Eq, Debug)]
pub enum Transform {
    /// The value itself.
    Unchanged,
    /// The length of the collection in the given member.
    Length(Member),
    /// The byte count of the given member (filled in later).
    ByteCount(Member),
    /// The items of a collection whose length the given member holds.
    LengthBy(Member),
    /// The items of a collection whose byte count the given member holds.
    ByteCountBy(Member),
}

/// How a byte order is listed.
pub open spec fn byte_order_text(b: ByteOrder) -> Seq<char> {
    match b {
        ByteOrder::BigEndian => "BigEndian"@,
        ByteOrder::LittleEndian => "LittleEndian"@,
    }
}

/// How a bit numbering is listed.
pub open spec fn bit_numbering_text(b: BitNumbering) -> Seq<char> {
    match b {
        BitNumbering::LSB0 => "LSB0"@,
        BitNumbering::MSB0 => "MSB0"@,
    }
}

/// How a flag is listed.
pub open spec fn bool_text(b: bool) -> Seq<char> {
    if b {
        "true"@
    } else {
        "false"@
    }
}

/// How a member is listed: its name, or its index.
pub open spec fn member_text(m: Member) -> Seq<char> {
    match m {
        Member::Named(name) => name@,
        Member::Unnamed(index) => decimal(index as nat),
    }
}

/// The variable that generated code binds a member to: its name, or `m`
/// and its index.
pub open spec fn member_ident(m: Member) -> Seq<char> {
    match m {
        Member::Named(name) => name@,
        Member::Unnamed(index) => seq!['m'] + decimal(index as nat),
    }
}

/// How a bit range is listed: `start..end`.
pub open spec fn range_text(start: u8, end: u8) -> Seq<char> {
    decimal(start as nat) + ".."@ + decimal(end as nat)
}

/// The listing text of a byte order.
pub fn byte_order_to_text(b: ByteOrder) -> (r: String)
    ensures
        r@ == byte_order_text(b),
{
    match b {
        ByteOrder::BigEndian => "BigEndian".to_owned(),
        ByteOrder::LittleEndian => "LittleEndian".to_owned(),
    }
}

/// The listing text of a bit numbering.
pub fn bit_numbering_to_text(b: BitNumbering) -> (r: String)
    ensures
        r@ == bit_numbering_text(b),
{
    match b {
        BitNumbering::LSB0 => "LSB0".to_owned(),
        BitNumbering::MSB0 => "MSB0".to_owned(),
    }
}

/// The listing text of a flag.
pub fn bool_to_text(b: bool) -> (r: String)
    ensures
        r@ == bool_text(b),
{
    if b {
        "true".to_owned()
    } else {
        "false".to_owned()
    }
}

/// The listing text of an unsigned number.
pub fn number_to_text(n: u64) -> (r: String)
    ensures
        r@ == decimal(n as nat),
{
    let mut v: Vec<char> = Vec::new();
    append_decimal(&mut v, n);
    chars_to_string(&v)
}

/// The listing text of a bit range.
pub fn range_to_text(start: u8, end: u8) -> (r: String)
    ensures
        r@ == range_text(start, end),
{
    let mut v: Vec<char> = Vec::new();
    append_decimal(&mut v, start as u64);
    v.push('.');
    v.push('.');
    append_decimal(&mut v, end as u64);
    proof {
        reveal_strlit("..");
        assert(v@ =~= range_text(start, end));
    }
    chars_to_string(&v)
}

impl Member {
    /// The listing text of the member.
    pub fn display(&self) -> (r: String)
        ensures
            r@ == member_text(*self),
    {
        match self {
            Member::Named(name) => name.clone(),
            Member::Unnamed(index) => number_to_text(*index as u64),
        }
    }

    /// The variable that generated code binds the member to.
    pub fn to_ident(&self) -> (r: String)
        ensures
            r@ == member_ident(*self),
    {
        match self {
            Member::Named(name) => name.clone(),
            Member::Unnamed(index) => {
                let mut v: Vec<char> = Vec::new();
                v.push('m');
                append_decimal(&mut v, *index as u64);
                assert(v@ =~= member_ident(*self));
                chars_to_string(&v)
            },
        }
    }

    /// A copy of the member.
    pub fn duplicate(&self) -> (r: Member)
        ensures
            r == *self,
    {
        match self {
            Member::Named(name) => Member::Named(name.clone()),
            Member::Unnamed(index) => Member::Unnamed(*index),
        }
    }
}

} // verus!
