//! The expression tree that serialization was first lowered to: serializer
//! calls chained with `and_then`, composites, and bit field packing. Rust
//! syntax (types, expressions, identifiers) is held as text.
use vstd::prelude::*;

use crate::text::{append_chars, append_decimal, append_str, chars_to_string, decimal};

verus! {

/// The `Serialize` implementation of the type `name`.
pub struct SerializeImpl {
    pub name: String,
    pub generics: String,
    pub body: Expr,
}

/// Pads the output up to byte `until`.
#[derive(Clone, Copy, PartialEq, Eq, Structural, Debug)]
pub struct Pad {
    pub until: u64,
}

/// Pads the output up to the next multiple of `multiple_of` bytes.
#[derive(Clone, Copy, PartialEq, Eq, Structural, Debug)]
pub struct Align {
    pub multiple_of: u64,
}

/// Serializes nothing.
#[derive(Clone, Copy, PartialEq, Eq, Structural, Debug)]
pub struct SerializeNothing;

/// Serializes the object that `object` evaluates to.
#[derive(PartialEq, Eq, Debug)]
pub struct SerializeObject {
    pub object: String,
}

/// Serializes the members as one composite.
#[derive(PartialEq, Eq, Debug)]
pub struct SerializeComposite {
    pub members: Vec<Expr>,
}

/// Annotates the error of `expr` with `item`.
#[derive(PartialEq, Eq, Debug)]
pub struct Enclose {
    pub item: String,
    pub expr: Box<Expr>,
}

/// Expressions run one after another, each binding the result of the one
/// before it to a variable (or discarding it).
#[derive(PartialEq, Eq, Debug)]
pub struct Chain {
    exprs: Vec<Expr>,
    vars: Vec<Option<String>>,
}

/// Packs `object` into the bits `bit_range` of `bit_field`.
#[derive(PartialEq, Eq, Debug)]
pub struct PackObject {
    pub bit_field: String,
    pub object: String,
    pub bit_range: std::ops::Range<u8>,
}

/// A bit field `bit_field` stored as `packed_ty`, packed by `members`.
#[derive(PartialEq, Eq, Debug)]
pub struct PackBitField {
    pub bit_field: String,
    pub packed_ty: String,
    pub members: Vec<Expr>,
}

/// A serialization expression.
#[derive(PartialEq, Eq, Debug)]
pub enum Expr {
    Pad(Pad),
    Align(Align),
    SerializeNothing(SerializeNothing),
    SerializeObject(SerializeObject),
    SerializeComposite(SerializeComposite),
    Enclose(Enclose),
    Chain(Chain),
    PackObject(PackObject),
    PackBitField(PackBitField),
}

//------------------------------------------------------------------------------
// Chains and their flattening.
//------------------------------------------------------------------------------

impl Chain {
    /// A chain has one variable less than expressions: one between each two.
    #[verifier::type_invariant]
    spec fn well_formed(self) -> bool {
        self.vars@.len() + 1 == self.exprs@.len()
    }

    /// The expressions of the chain.
    pub closed spec fn expr_seq(self) -> Seq<Expr> {
        self.exprs@
    }

    /// The variables of the chain.
    pub closed spec fn var_seq(self) -> Seq<Option<String>> {
        self.vars@
    }

    /// The expressions of the chain.
    pub fn exprs(&self) -> (r: &Vec<Expr>)
        ensures
            r@ == self.expr_seq(),
    {
        &self.exprs
    }

    /// The variables of the chain.
    pub fn vars(&self) -> (r: &Vec<Option<String>>)
        ensures
            r@ == self.var_seq(),
            r@.len() + 1 == self.expr_seq().len(),
    {
        proof {
            use_type_invariant(self);
        }
        &self.vars
    }

    /// A chain of `exprs`, with `vars[i]` binding the result of `exprs[i]`
    /// for `exprs[i + 1]`.
    pub fn new(exprs: Vec<Expr>, vars: Vec<Option<String>>) -> (c: Chain)
        requires
            vars@.len() + 1 == exprs@.len(),
        ensures
            c.expr_seq() == exprs@,
            c.var_seq() == vars@,
    {
        Chain { exprs, vars }
    }

    /// A chain of `exprs` that discards each result.
    pub fn new_placeholder_vars(exprs: Vec<Expr>) -> (c: Chain)
        requires
            exprs@.len() >= 1,
        ensures
            c.expr_seq() == exprs@,
            c.var_seq() == Seq::new((exprs@.len() - 1) as nat, |i: int| None::<String>),
    {
        let n = if exprs.len() > 1 {
            exprs.len()
        } else {
            1
        } - 1;
        let mut vars: Vec<Option<String>> = Vec::new();
        let mut i: usize = 0;
        while i < n
            invariant
                i <= n,
                vars@ == Seq::new(i as nat, |j: int| None::<String>),
            decreases n - i,
        {
            vars.push(None);
            i = i + 1;
            assert(vars@ =~= Seq::new(i as nat, |j: int| None::<String>));
        }
        Chain::new(exprs, vars)
    }
}

/// Expressions and variables with no chain at the head and no chain whose
/// result is discarded into it: every chain left is bound to a variable.
pub open spec fn is_flat(exprs: Seq<Expr>, vars: Seq<Option<String>>) -> bool {
    &&& vars.len() + 1 == exprs.len()
    &&& !(exprs[0] is Chain)
    &&& forall|i: int| 1 <= i < exprs.len() && (#[trigger] exprs[i]) is Chain ==> vars[i - 1] is Some
}

/// The expressions and variables of `c` flattened: a chain at the head, or
/// one whose preceding result is discarded, is replaced by its own flattened
/// expressions and variables.
pub open spec fn flat_view(c: Chain) -> (Seq<Expr>, Seq<Option<String>>)
    decreases c, c.expr_seq().len() + 1,
{
    flat_prefix(c, c.expr_seq().len() as int)
}

/// The first `k` expressions of `c` flattened.
pub open spec fn flat_prefix(c: Chain, k: int) -> (Seq<Expr>, Seq<Option<String>>)
    decreases c, k,
{
    if k <= 0 || k > c.expr_seq().len() {
        (Seq::empty(), Seq::empty())
    } else if k == 1 {
        match c.expr_seq()[0] {
            Expr::Chain(sub) => flat_view(sub),
            e => (seq![e], Seq::empty()),
        }
    } else {
        let (es, vs) = flat_prefix(c, k - 1);
        let e = c.expr_seq()[k - 1];
        let v = c.var_seq()[k - 2];
        if e is Chain && v is None {
            let (se, sv) = flat_view(e->Chain_0);
            (es + se, vs.push(None) + sv)
        } else {
            (es.push(e), vs.push(v))
        }
    }
}

proof fn lemma_flat_join(es: Seq<Expr>, vs: Seq<Option<String>>, se: Seq<Expr>, sv: Seq<Option<String>>)
    requires
        is_flat(es, vs),
        is_flat(se, sv),
    ensures
        is_flat(es + se, vs.push(None) + sv),
{
    let e2 = es + se;
    let v2 = vs.push(None) + sv;
    assert forall|i: int| 1 <= i < e2.len() && (#[trigger] e2[i]) is Chain implies v2[i - 1] is Some by {
        if i < es.len() {
            assert(e2[i] == es[i]);
            assert(v2[i - 1] == vs[i - 1]);
        } else if i == es.len() {
            assert(e2[i] == se[0]);
        } else {
            assert(e2[i] == se[i - es.len()]);
            assert(v2[i - 1] == sv[i - es.len() - 1]);
        }
    }
}

proof fn lemma_flat_push(es: Seq<Expr>, vs: Seq<Option<String>>, e: Expr, v: Option<String>)
    requires
        is_flat(es, vs),
        e is Chain ==> v is Some,
    ensures
        is_flat(es.push(e), vs.push(v)),
{
    let e2 = es.push(e);
    let v2 = vs.push(v);
    assert forall|i: int| 1 <= i < e2.len() && (#[trigger] e2[i]) is Chain implies v2[i - 1] is Some by {
        if i < es.len() {
            assert(e2[i] == es[i]);
            assert(v2[i - 1] == vs[i - 1]);
        }
    }
}

impl Chain {
    /// Flattens the chain: a chain at its head, or a chain whose preceding
    /// result is discarded, is spliced in flattened; the result holds no
    /// such chain.
    #[verifier::loop_isolation(false)]
    pub fn flatten(self) -> (c: Chain)
        ensures
            (c.expr_seq(), c.var_seq()) == flat_view(self),
            is_flat(c.expr_seq(), c.var_seq()),
        decreases self,
    {
        proof {
            use_type_invariant(&self);
        }
        let ghost whole = self;
        let total = self.exprs.len();
        let Chain { exprs: mut rest_exprs, vars: mut rest_vars } = self;
        let mut exprs: Vec<Expr> = Vec::new();
        let mut vars: Vec<Option<String>> = Vec::new();
        let first = rest_exprs.remove(0);
        match first {
            Expr::Chain(chain) => {
                proof {
                    assert(decreases_to!(whole => chain));
                }
                let flat = chain.flatten();
                let Chain { exprs: mut sub_exprs, vars: mut sub_vars } = flat;
                exprs.append(&mut sub_exprs);
                vars.append(&mut sub_vars);
            },
            expr => {
                exprs.push(expr);
                assert(exprs@ =~= seq![expr]);
            },
        }
        proof {
            assert((exprs@, vars@) == flat_prefix(whole, 1));
        }
        let mut i: usize = 1;
        while rest_exprs.len() > 0
            invariant
                1 <= i <= whole.exprs@.len(),
                total == whole.exprs@.len(),
                whole.vars@.len() + 1 == whole.exprs@.len(),
                rest_exprs@ == whole.exprs@.skip(i as int),
                rest_vars@ == whole.vars@.skip(i - 1),
                (exprs@, vars@) == flat_prefix(whole, i as int),
                is_flat(exprs@, vars@),
            decreases rest_exprs.len(),
        {
            let expr = rest_exprs.remove(0);
            let var = rest_vars.remove(0);
            proof {
                assert(expr == whole.exprs@[i as int]);
                assert(var == whole.vars@[i - 1]);
            }
            match (expr, var) {
                (Expr::Chain(chain), None) => {
                    proof {
                        assert(decreases_to!(whole => whole.exprs));
                        assert(decreases_to!(whole.exprs => whole.exprs@));
                        assert(decreases_to!(whole.exprs@ => whole.exprs@[i as int]));
                        assert(decreases_to!(whole.exprs@[i as int] => chain));
                        assert(decreases_to!(whole => chain));
                    }
                    let flat = chain.flatten();
                    let Chain { exprs: mut sub_exprs, vars: mut sub_vars } = flat;
                    let ghost (es, vs) = (exprs@, vars@);
                    let ghost (se, sv) = (sub_exprs@, sub_vars@);
                    vars.push(None);
                    vars.append(&mut sub_vars);
                    exprs.append(&mut sub_exprs);
                    proof {
                        lemma_flat_join(es, vs, se, sv);
                    }
                },
                (expr, var) => {
                    let ghost (es, vs) = (exprs@, vars@);
                    exprs.push(expr);
                    vars.push(var);
                    proof {
                        lemma_flat_push(es, vs, expr, var);
                    }
                },
            }
            i = i + 1;
            proof {
                assert(rest_exprs@ =~= whole.exprs@.skip(i as int));
                assert(rest_vars@ =~= whole.vars@.skip(i - 1));
            }
        }
        proof {
            assert(i == whole.exprs@.len());
        }
        Chain::new(exprs, vars)
    }
}

/// A flat chain is left as it is by flattening, so flattening twice is
/// flattening once.
pub proof fn lemma_flatten_fixed_point(c: Chain)
    requires
        is_flat(c.expr_seq(), c.var_seq()),
    ensures
        flat_view(c) == (c.expr_seq(), c.var_seq()),
{
    lemma_flat_prefix_of_flat(c, c.exprs@.len() as int);
    assert(c.exprs@.take(c.exprs@.len() as int) =~= c.exprs@);
    assert(c.vars@.take(c.exprs@.len() - 1) =~= c.vars@);
}

proof fn lemma_flat_prefix_of_flat(c: Chain, k: int)
    requires
        is_flat(c.exprs@, c.vars@),
        1 <= k <= c.exprs@.len(),
    ensures
        flat_prefix(c, k) == (c.exprs@.take(k), c.vars@.take(k - 1)),
    decreases k,
{
    if k == 1 {
        assert(c.exprs@.take(1) =~= seq![c.exprs@[0]]);
        assert(c.vars@.take(0) =~= Seq::<Option<String>>::empty());
    } else {
        lemma_flat_prefix_of_flat(c, k - 1);
        assert(c.exprs@.take(k) =~= c.exprs@.take(k - 1).push(c.exprs@[k - 1]));
        assert(c.vars@.take(k - 1) =~= c.vars@.take(k - 2).push(c.vars@[k - 2]));
    }
}

impl Expr {
    /// Flattens a chain; any other expression stays as it is.
    pub fn flatten(self) -> (r: Expr)
        ensures
            match self {
                Expr::Chain(c) => r matches Expr::Chain(f) && (f.expr_seq(), f.var_seq())
                    == flat_view(c) && is_flat(f.expr_seq(), f.var_seq()),
                _ => r == self,
            },
    {
        match self {
            Expr::Chain(chain) => Expr::Chain(chain.flatten()),
            other => other,
        }
    }
}

//------------------------------------------------------------------------------
// How expressions are shown.
//------------------------------------------------------------------------------

/// `name(n)`.
pub open spec fn call_text(name: Seq<char>, n: u64) -> Seq<char> {
    name + seq!['('] + decimal(n as nat) + seq![')']
}

/// How an expression is shown.
pub open spec fn expr_text(e: Expr) -> Seq<char>
    decreases e, 0int,
{
    match e {
        Expr::Pad(p) => call_text("pad"@, p.until),
        Expr::Align(a) => call_text("align"@, a.multiple_of),
        Expr::SerializeNothing(_) => "serialize_nothing()"@,
        Expr::SerializeObject(o) => "serialize("@ + o.object@ + ")"@,
        Expr::SerializeComposite(c) => "composite{"@ + exprs_text(
            c.members@,
            c.members@.len() as int,
        ) + "}"@,
        Expr::Enclose(x) => expr_text(*x.expr) + ".enclose("@ + x.item@ + ")"@,
        Expr::Chain(c) => "chain("@ + chain_items_text(
            c.expr_seq(),
            c.var_seq(),
            c.expr_seq().len() as int,
        ) + ")"@,
        Expr::PackObject(p) => "pack("@ + p.object@ + " -> "@ + p.bit_field@ + "["@ + decimal(
            p.bit_range.start as nat,
        ) + ".."@ + decimal(p.bit_range.end as nat) + "])"@,
        Expr::PackBitField(b) => "bit_field{"@ + exprs_text(b.members@, b.members@.len() as int)
            + "}"@,
    }
}

/// The first `k` expressions shown, with `, ` between them.
pub open spec fn exprs_text(es: Seq<Expr>, k: int) -> Seq<char>
    decreases es, k,
{
    if k <= 0 || k > es.len() {
        Seq::empty()
    } else if k == 1 {
        expr_text(es[0])
    } else {
        exprs_text(es, k - 1) + ", "@ + expr_text(es[k - 1])
    }
}

/// A chain's variable as shown: its name, or `_`.
pub open spec fn var_text(v: Option<String>) -> Seq<char> {
    match v {
        Some(name) => name@,
        None => "_"@,
    }
}

/// The first `k` expressions of a chain shown, each but the last followed by
/// ` -> |variable| `.
pub open spec fn chain_items_text(es: Seq<Expr>, vs: Seq<Option<String>>, k: int) -> Seq<char>
    decreases es, k,
{
    if k <= 0 || k > es.len() {
        Seq::empty()
    } else if k == es.len() {
        chain_items_text(es, vs, k - 1) + expr_text(es[k - 1])
    } else {
        chain_items_text(es, vs, k - 1) + expr_text(es[k - 1]) + " -> |"@ + var_text(vs[k - 1])
            + "| "@
    }
}

fn append_call(dst: &mut Vec<char>, name: &str, n: u64)
    ensures
        final(dst)@ == old(dst)@ + call_text(name@, n),
{
    append_str(dst, name);
    dst.push('(');
    append_decimal(dst, n);
    dst.push(')');
    assert(final(dst)@ =~= old(dst)@ + call_text(name@, n));
}

fn append_exprs(dst: &mut Vec<char>, es: &Vec<Expr>)
    ensures
        final(dst)@ == old(dst)@ + exprs_text(es@, es@.len() as int),
    decreases es@, 0int,
{
    let ghost start = dst@;
    let mut i: usize = 0;
    while i < es.len()
        invariant
            i <= es.len(),
            dst@ == start + exprs_text(es@, i as int),
        decreases es.len() - i,
    {
        proof {
            assert(decreases_to!(es@ => es@[i as int]));
        }
        let ghost before = dst@;
        if i > 0 {
            append_str(dst, ", ");
        }
        es[i].append_text(dst);
        i = i + 1;
        assert(dst@ =~= start + exprs_text(es@, i as int));
    }
}

impl Expr {
    /// Appends how the expression is shown.
    #[verifier::loop_isolation(false)]
    pub fn append_text(&self, dst: &mut Vec<char>)
        ensures
            final(dst)@ == old(dst)@ + expr_text(*self),
        decreases *self, 1int,
    {
        let ghost start = dst@;
        match self {
            Expr::Pad(p) => append_call(dst, "pad", p.until),
            Expr::Align(a) => append_call(dst, "align", a.multiple_of),
            Expr::SerializeNothing(_) => append_str(dst, "serialize_nothing()"),
            Expr::SerializeObject(o) => {
                append_str(dst, "serialize(");
                append_str(dst, o.object.as_str());
                append_str(dst, ")");
                assert(dst@ =~= start + expr_text(*self));
            },
            Expr::SerializeComposite(c) => {
                append_str(dst, "composite{");
                append_exprs(dst, &c.members);
                append_str(dst, "}");
                assert(dst@ =~= start + expr_text(*self));
            },
            Expr::Enclose(x) => {
                x.expr.append_text(dst);
                append_str(dst, ".enclose(");
                append_str(dst, x.item.as_str());
                append_str(dst, ")");
                assert(dst@ =~= start + expr_text(*self));
            },
            Expr::Chain(c) => {
                append_str(dst, "chain(");
                let exprs = c.exprs();
                let vars = c.vars();
                let mut i: usize = 0;
                while i < exprs.len()
                    invariant
                        i <= exprs.len(),
                        exprs@ == c.expr_seq(),
                        vars@ == c.var_seq(),
                        vars@.len() + 1 == exprs@.len(),
                        dst@ == start + "chain("@ + chain_items_text(exprs@, vars@, i as int),
                    decreases exprs.len() - i,
                {
                    proof {
                        assert(decreases_to!(*c => c.exprs));
                        assert(decreases_to!(c.exprs => c.exprs@));
                        assert(decreases_to!(c.exprs@ => c.exprs@[i as int]));
                        assert(decreases_to!(*self => exprs@[i as int]));
                    }
                    exprs[i].append_text(dst);
                    if i + 1 < exprs.len() {
                        append_str(dst, " -> |");
                        match &vars[i] {
                            Some(name) => append_str(dst, name.as_str()),
                            None => append_str(dst, "_"),
                        }
                        append_str(dst, "| ");
                    }
                    i = i + 1;
                    assert(dst@ =~= start + "chain("@ + chain_items_text(exprs@, vars@, i as int));
                }
                append_str(dst, ")");
                assert(dst@ =~= start + expr_text(*self));
            },
            Expr::PackObject(p) => {
                append_str(dst, "pack(");
                append_str(dst, p.object.as_str());
                append_str(dst, " -> ");
                append_str(dst, p.bit_field.as_str());
                append_str(dst, "[");
                append_decimal(dst, p.bit_range.start as u64);
                append_str(dst, "..");
                append_decimal(dst, p.bit_range.end as u64);
                append_str(dst, "])");
                assert(dst@ =~= start + expr_text(*self));
            },
            Expr::PackBitField(b) => {
                append_str(dst, "bit_field{");
                append_exprs(dst, &b.members);
                append_str(dst, "}");
                assert(dst@ =~= start + expr_text(*self));
            },
        }
    }

    /// How the expression is shown.
    pub fn describe(&self) -> (r: String)
        ensures
            r@ == expr_text(*self),
    {
        let mut v: Vec<char> = Vec::new();
        self.append_text(&mut v);
        assert(v@ =~= expr_text(*self));
        chars_to_string(&v)
    }
}

impl Pad {
    /// How the node is shown: `pad(until)`.
    pub fn describe(&self) -> (r: String)
        ensures
            r@ == call_text("pad"@, self.until),
    {
        let mut v: Vec<char> = Vec::new();
        append_call(&mut v, "pad", self.until);
        assert(v@ =~= call_text("pad"@, self.until));
        chars_to_string(&v)
    }
}

impl Align {
    /// How the node is shown: `align(multiple_of)`.
    pub fn describe(&self) -> (r: String)
        ensures
            r@ == call_text("align"@, self.multiple_of),
    {
        let mut v: Vec<char> = Vec::new();
        append_call(&mut v, "align", self.multiple_of);
        assert(v@ =~= call_text("align"@, self.multiple_of));
        chars_to_string(&v)
    }
}

impl SerializeNothing {
    /// How the node is shown.
    pub fn describe(&self) -> (r: &'static str)
        ensures
            r@ == "serialize_nothing()"@,
    {
        "serialize_nothing()"
    }
}

impl SerializeImpl {
    /// How the implementation is shown: `impl Serialize for name { body }`.
    pub fn describe(&self) -> (r: String)
        ensures
            r@ == "impl Serialize for "@ + self.name@ + " { "@ + expr_text(self.body) + " }"@,
    {
        let mut v: Vec<char> = Vec::new();
        append_str(&mut v, "impl Serialize for ");
        append_str(&mut v, self.name.as_str());
        append_str(&mut v, " { ");
        self.body.append_text(&mut v);
        append_str(&mut v, " }");
        assert(v@ =~= "impl Serialize for "@ + self.name@ + " { "@ + expr_text(self.body) + " }"@);
        chars_to_string(&v)
    }
}

impl SerializeComposite {
    /// The chain that the composite runs: its members one after another,
    /// each result discarded; a composite without members serializes
    /// nothing.
    pub fn into_chain(self) -> (c: Chain)
        ensures
            self.members@.len() > 0 ==> c.expr_seq() == self.members@,
            self.members@.len() == 0 ==> c.expr_seq() == seq![Expr::SerializeNothing(SerializeNothing)],
            c.var_seq() == Seq::new((c.expr_seq().len() - 1) as nat, |i: int| None::<String>),
    {
        let members = if self.members.len() > 0 {
            self.members
        } else {
            let mut nothing: Vec<Expr> = Vec::new();
            nothing.push(Expr::SerializeNothing(SerializeNothing));
            assert(nothing@ =~= seq![Expr::SerializeNothing(SerializeNothing)]);
            nothing
        };
        Chain::new_placeholder_vars(members)
    }
}

impl Chain {
    /// The expressions and variables of the chain, taken apart.
    pub fn into_parts(self) -> (r: (Vec<Expr>, Vec<Option<String>>))
        ensures
            r.0@ == self.expr_seq(),
            r.1@ == self.var_seq(),
            r.1@.len() + 1 == r.0@.len(),
    {
        proof {
            use_type_invariant(&self);
        }
        (self.exprs, self.vars)
    }
}

} // verus!
