//! Identifiers and values of the intermediate representation.
use vstd::prelude::*;

use crate::text::{append_decimal, decimal};

verus! {

/// The source of fresh identifiers: it hands out `next` and moves on by one,
/// wrapping around after `usize::MAX` as an atomic counter does.
pub struct IdSource {
    pub next: usize,
}

impl IdSource {
    /// A source that starts at 0.
    pub fn new() -> (s: Self)
        ensures
            s.next == 0,
    {
        IdSource { next: 0 }
    }
}

/// The identifier after `n`, wrapping around.
pub open spec fn following(n: usize) -> usize {
    if n == usize::MAX {
        0
    } else {
        (n + 1) as usize
    }
}

/// Takes the next identifier from `ids`.
pub fn next_id(ids: &mut IdSource) -> (id: usize)
    ensures
        id == old(ids).next,
        final(ids).next == following(old(ids).next),
{
    let id = ids.next;
    ids.next = if id == usize::MAX {
        0
    } else {
        id + 1
    };
    id
}

/// The `k`-th identifier that a source starting at `start` hands out.
pub open spec fn nth_id(start: usize, k: nat) -> usize
    decreases k,
{
    if k == 0 {
        start
    } else {
        following(nth_id(start, (k - 1) as nat))
    }
}

proof fn lemma_nth_id_value(start: usize, k: nat)
    requires
        start + k <= usize::MAX,
    ensures
        nth_id(start, k) == start + k,
    decreases k,
{
    if k > 0 {
        lemma_nth_id_value(start, (k - 1) as nat);
    }
}

/// Taking `a` and then `b` identifiers is taking `a + b`.
pub proof fn lemma_nth_id_add(start: usize, a: nat, b: nat)
    ensures
        nth_id(nth_id(start, a), b) == nth_id(start, a + b),
    decreases b,
{
    if b > 0 {
        lemma_nth_id_add(start, a, (b - 1) as nat);
        assert((a + b - 1) as nat == (a + (b - 1)) as nat);
    }
}

/// Identifiers handed out one after another by the same source are all
/// different, as long as the source does not wrap around.
pub proof fn lemma_ids_distinct(start: usize, a: nat, b: nat)
    requires
        a != b,
        start + a <= usize::MAX,
        start + b <= usize::MAX,
    ensures
        nth_id(start, a) != nth_id(start, b),
{
    lemma_nth_id_value(start, a);
    lemma_nth_id_value(start, b);
}

/// The identifier of an operation or a region.
#[derive(Clone, Copy, PartialEq, Eq, Structural, PartialOrd, Ord, Debug, Hash)]
pub struct Id(pub usize);

impl Id {
    /// A fresh identifier from `ids`.
    pub fn new(ids: &mut IdSource) -> (id: Id)
        ensures
            id.0 == old(ids).next,
            final(ids).next == following(old(ids).next),
    {
        Id(next_id(ids))
    }

    /// The `index`-th value that the owner of this identifier defines.
    pub fn value(&self, index: usize) -> (v: Value)
        ensures
            v == (Value { owner: *self, index }),
    {
        Value { owner: *self, index }
    }

    /// The decimal text of the identifier.
    pub fn to_text(&self) -> (r: String)
        ensures
            r@ == decimal(self.0 as nat),
    {
        let mut v: Vec<char> = Vec::new();
        append_decimal(&mut v, self.0 as u64);
        crate::text::chars_to_string(&v)
    }
}

/// A value: the `index`-th result of the operation (or argument of the
/// region) whose identifier is `owner`.
#[derive(Clone, Copy, PartialEq, Eq, Structural, PartialOrd, Ord, Debug, Hash)]
pub struct Value {
    pub owner: Id,
    pub index: usize,
}

/// How a value is listed: `%owner_index`.
pub open spec fn value_text(v: Value) -> Seq<char> {
    seq!['%'] + decimal(v.owner.0 as nat) + seq!['_'] + decimal(v.index as nat)
}

/// The name a value gets in generated code: `vowner_index`.
pub open spec fn value_ident(v: Value) -> Seq<char> {
    seq!['v'] + decimal(v.owner.0 as nat) + seq!['_'] + decimal(v.index as nat)
}

impl Value {
    /// The value `index` of `owner`.
    pub fn new(owner: Id, index: usize) -> (v: Value)
        ensures
            v.owner == owner,
            v.index == index,
    {
        Value { owner, index }
    }

    /// Appends the listing text of the value to `dst`.
    pub fn append_text(&self, dst: &mut Vec<char>)
        ensures
            final(dst)@ == old(dst)@ + value_text(*self),
    {
        dst.push('%');
        append_decimal(dst, self.owner.0 as u64);
        dst.push('_');
        append_decimal(dst, self.index as u64);
        assert(final(dst)@ =~= old(dst)@ + value_text(*self));
    }

    /// The listing text of the value, `%owner_index`.
    pub fn to_text(&self) -> (r: String)
        ensures
            r@ == value_text(*self),
    {
        let mut v: Vec<char> = Vec::new();
        self.append_text(&mut v);
        crate::text::chars_to_string(&v)
    }

    /// The identifier that generated code gives the value, `vowner_index`.
    pub fn ident_text(&self) -> (r: String)
        ensures
            r@ == value_ident(*self),
    {
        let mut v: Vec<char> = Vec::new();
        v.push('v');
        append_decimal(&mut v, self.owner.0 as u64);
        v.push('_');
        append_decimal(&mut v, self.index as u64);
        assert(v@ =~= value_ident(*self));
        crate::text::chars_to_string(&v)
    }
}

} // verus!
