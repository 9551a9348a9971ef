//! How the attributes of an operation are listed.
use vstd::prelude::*;

use crate::attribute::{
    bit_numbering_text, bit_numbering_to_text, bool_text, bool_to_text, byte_order_text,
    byte_order_to_text, member_text, number_to_text, range_text, range_to_text, BitNumbering,
    ByteOrder, Member,
};
use crate::text::decimal;

verus! {

/// A value that an operation can carry as an attribute.
pub trait Attribute {
    /// How the attribute is listed.
    spec fn attribute_text(&self) -> Seq<char>;

    /// The listing text of the attribute.
    fn display(&self) -> (r: String)
        ensures
            r@ == self.attribute_text(),
    ;
}

impl Attribute for bool {
    open spec fn attribute_text(&self) -> Seq<char> {
        bool_text(*self)
    }

    fn display(&self) -> (r: String) {
        bool_to_text(*self)
    }
}

impl Attribute for u8 {
    open spec fn attribute_text(&self) -> Seq<char> {
        decimal(*self as nat)
    }

    fn display(&self) -> (r: String) {
        number_to_text(*self as u64)
    }
}

impl Attribute for u16 {
    open spec fn attribute_text(&self) -> Seq<char> {
        decimal(*self as nat)
    }

    fn display(&self) -> (r: String) {
        number_to_text(*self as u64)
    }
}

impl Attribute for u32 {
    open spec fn attribute_text(&self) -> Seq<char> {
        decimal(*self as nat)
    }

    fn display(&self) -> (r: String) {
        number_to_text(*self as u64)
    }
}

impl Attribute for u64 {
    open spec fn attribute_text(&self) -> Seq<char> {
        decimal(*self as nat)
    }

    fn display(&self) -> (r: String) {
        number_to_text(*self)
    }
}

impl Attribute for String {
    open spec fn attribute_text(&self) -> Seq<char> {
        self@
    }

    fn display(&self) -> (r: String) {
        self.clone()
    }
}

impl Attribute for ByteOrder {
    open spec fn attribute_text(&self) -> Seq<char> {
        byte_order_text(*self)
    }

    fn display(&self) -> (r: String) {
        byte_order_to_text(*self)
    }
}

impl Attribute for BitNumbering {
    open spec fn attribute_text(&self) -> Seq<char> {
        bit_numbering_text(*self)
    }

    fn display(&self) -> (r: String) {
        bit_numbering_to_text(*self)
    }
}

impl Attribute for Member {
    open spec fn attribute_text(&self) -> Seq<char> {
        member_text(*self)
    }

    fn display(&self) -> (r: String) {
        Member::display(self)
    }
}

impl Attribute for std::ops::Range<u8> {
    open spec fn attribute_text(&self) -> Seq<char> {
        range_text(self.start, self.end)
    }

    fn display(&self) -> (r: String) {
        range_to_text(self.start, self.end)
    }
}

} // verus!
