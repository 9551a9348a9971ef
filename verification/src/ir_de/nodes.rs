//! The deserialization expression tree: deserializer calls, blocks of
//! bindings, composites and the construction of the result. Rust syntax
//! (types, expressions, identifiers) is held as text.
use vstd::prelude::*;

use crate::text::{append_decimal, append_str, chars_to_string, decimal};

verus! {

/// The `Deserialize` implementation of the type `name`.
pub struct DeserializeImpl {
    pub name: String,
    pub generics: String,
    pub body: Expr,
}

/// Binds the value of `expr` to `ident` (or discards it).
pub struct Let {
    pub ident: Option<String>,
    pub expr: Expr,
}

/// The value of `expr`, or its error returned.
pub struct Try {
    pub expr: Box<Expr>,
}

/// Annotates the error of `expr` with `item`.
pub struct Enclose {
    pub item: String,
    pub expr: Box<Expr>,
}

/// Bindings, then a result.
pub struct Block {
    pub statements: Vec<Let>,
    pub result: Box<Expr>,
}

/// A `ty` built from the variables `args`; `shown_args` are the variables
/// in their `Debug` form.
pub struct Construct {
    pub ty: String,
    pub args: Vec<String>,
    pub shown_args: Vec<String>,
}

/// The variable `ident`.
pub struct Name {
    pub ident: String,
}

/// `expr` as a success.
pub struct OkValue {
    pub expr: Box<Expr>,
}

/// The bit field that the raw bits `bits` hold.
pub struct BitFieldFrom {
    pub bits: Box<Expr>,
}

/// Deserializes a `ty`.
pub struct DeserializeObject {
    pub ty: String,
}

/// Deserializes what `body` deserializes as one composite.
pub struct DeserializeComposite {
    pub body: Box<Expr>,
}

/// Unpacks a `ty` from the bits `bit_range` of `bit_field`.
pub struct UnpackObject {
    pub bit_field: String,
    pub ty: String,
    pub bit_range: std::ops::Range<u8>,
}

/// A deserialization expression.
pub enum Expr {
    Try(Try),
    Enclose(Enclose),
    Block(Block),
    Construct(Construct),
    Name(Name),
    OkValue(OkValue),
    BitFieldFrom(BitFieldFrom),
    Pad(Pad),
    Align(Align),
    DeserializeNothing(DeserializeNothing),
    DeserializeObject(DeserializeObject),
    DeserializeComposite(DeserializeComposite),
    UnpackObject(UnpackObject),
    Todo(Todo),
}

/// Skips input up to byte `until`.
#[derive(Clone, Copy, PartialEq, Eq, Structural, Debug)]
pub struct Pad {
    pub until: u64,
}

/// Skips input up to the next multiple of `multiple_of` bytes.
#[derive(Clone, Copy, PartialEq, Eq, Structural, Debug)]
pub struct Align {
    pub multiple_of: u64,
}

/// Deserializes nothing.
#[derive(Clone, Copy, PartialEq, Eq, Structural, Debug)]
pub struct DeserializeNothing;

/// A placeholder for what is not lowered yet.
#[derive(Clone, Copy, PartialEq, Eq, Structural, Debug)]
pub struct Todo;

/// `name(n)`.
pub open spec fn call_text(name: Seq<char>, n: u64) -> Seq<char> {
    name + seq!['('] + decimal(n as nat) + seq![')']
}

fn call_to_text(name: &str, n: u64) -> (r: String)
    ensures
        r@ == call_text(name@, n),
{
    let mut v: Vec<char> = Vec::new();
    append_str(&mut v, name);
    v.push('(');
    append_decimal(&mut v, n);
    v.push(')');
    assert(v@ =~= call_text(name@, n));
    chars_to_string(&v)
}

impl Pad {
    /// How the node is shown: `pad(until)`.
    pub fn describe(&self) -> (r: String)
        ensures
            r@ == call_text("pad"@, self.until),
    {
        call_to_text("pad", self.until)
    }
}

impl Align {
    /// How the node is shown: `align(multiple_of)`.
    pub fn describe(&self) -> (r: String)
        ensures
            r@ == call_text("align"@, self.multiple_of),
    {
        call_to_text("align", self.multiple_of)
    }
}

impl DeserializeNothing {
    /// How the node is shown.
    pub fn describe(&self) -> (r: &'static str)
        ensures
            r@ == "deserialize_nothing()"@,
    {
        "deserialize_nothing()"
    }
}

impl Todo {
    /// How the node is shown.
    pub fn describe(&self) -> (r: &'static str)
        ensures
            r@ == "todo!()"@,
    {
        "todo!()"
    }
}

//------------------------------------------------------------------------------
// How the tree is shown.
//------------------------------------------------------------------------------

/// How an expression is shown.
pub open spec fn de_expr_text(e: Expr) -> Seq<char>
    decreases e, 0int,
{
    match e {
        Expr::Try(t) => de_expr_text(*t.expr) + "?"@,
        Expr::Enclose(x) => de_expr_text(*x.expr) + ".enclose("@ + x.item@ + ")"@,
        Expr::Block(b) => "{ "@ + lets_text(b.statements@, b.statements@.len() as int) + de_expr_text(
            *b.result,
        ) + " }"@,
        Expr::Construct(c) => c.ty@ + " { "@ + args_text(c.shown_args@, c.shown_args@.len() as int) + "}"@,
        Expr::Name(n) => n.ident@,
        Expr::OkValue(o) => "ok("@ + de_expr_text(*o.expr) + ")"@,
        Expr::BitFieldFrom(b) => "bit_field("@ + de_expr_text(*b.bits) + ")"@,
        Expr::Pad(p) => call_text("pad"@, p.until),
        Expr::Align(a) => call_text("align"@, a.multiple_of),
        Expr::DeserializeNothing(_) => "deserialize_nothing()"@,
        Expr::DeserializeObject(d) => "deserialize::<"@ + d.ty@ + ">()"@,
        Expr::DeserializeComposite(c) => "composite{ "@ + de_expr_text(*c.body) + " }"@,
        Expr::UnpackObject(u) => "unpack("@ + u.bit_field@ + "["@ + decimal(u.bit_range.start as nat)
            + ".."@ + decimal(u.bit_range.end as nat) + "] -> "@ + u.ty@ + ")"@,
        Expr::Todo(_) => "todo!()"@,
    }
}

/// A binding's variable as shown: its name, or `_`.
pub open spec fn binding_text(ident: Option<String>) -> Seq<char> {
    match ident {
        Some(name) => name@,
        None => "_"@,
    }
}

/// How a binding is shown: `variable = expr`.
pub open spec fn let_text(l: Let) -> Seq<char>
    decreases l, 0int,
{
    binding_text(l.ident) + " = "@ + de_expr_text(l.expr)
}

/// The first `k` bindings shown, each followed by `; `.
pub open spec fn lets_text(ls: Seq<Let>, k: int) -> Seq<char>
    decreases ls, k,
{
    if k <= 0 || k > ls.len() {
        Seq::empty()
    } else {
        lets_text(ls, k - 1) + let_text(ls[k - 1]) + "; "@
    }
}

/// The first `k` arguments shown, each followed by `, `.
pub open spec fn args_text(args: Seq<String>, k: int) -> Seq<char>
    decreases k,
{
    if k <= 0 || k > args.len() {
        Seq::empty()
    } else {
        args_text(args, k - 1) + args[k - 1]@ + ", "@
    }
}

fn append_lets(dst: &mut Vec<char>, ls: &Vec<Let>)
    ensures
        final(dst)@ == old(dst)@ + lets_text(ls@, ls@.len() as int),
    decreases ls@, 0int,
{
    let ghost start = dst@;
    let mut i: usize = 0;
    while i < ls.len()
        invariant
            i <= ls.len(),
            dst@ == start + lets_text(ls@, i as int),
        decreases ls.len() - i,
    {
        proof {
            assert(decreases_to!(ls@ => ls@[i as int]));
        }
        ls[i].append_text(dst);
        append_str(dst, "; ");
        i = i + 1;
        assert(dst@ =~= start + lets_text(ls@, i as int));
    }
}

impl Let {
    /// Appends how the binding is shown.
    pub fn append_text(&self, dst: &mut Vec<char>)
        ensures
            final(dst)@ == old(dst)@ + let_text(*self),
        decreases *self, 1int,
    {
        let ghost start = dst@;
        match &self.ident {
            Some(name) => append_str(dst, name.as_str()),
            None => append_str(dst, "_"),
        }
        append_str(dst, " = ");
        self.expr.append_text(dst);
        assert(dst@ =~= start + let_text(*self));
    }

    /// How the binding is shown.
    pub fn describe(&self) -> (r: String)
        ensures
            r@ == let_text(*self),
    {
        let mut v: Vec<char> = Vec::new();
        self.append_text(&mut v);
        assert(v@ =~= let_text(*self));
        chars_to_string(&v)
    }
}

impl Expr {
    /// Appends how the expression is shown.
    #[verifier::loop_isolation(false)]
    pub fn append_text(&self, dst: &mut Vec<char>)
        ensures
            final(dst)@ == old(dst)@ + de_expr_text(*self),
        decreases *self, 1int,
    {
        let ghost start = dst@;
        match self {
            Expr::Try(t) => {
                t.expr.append_text(dst);
                append_str(dst, "?");
            },
            Expr::Enclose(x) => {
                x.expr.append_text(dst);
                append_str(dst, ".enclose(");
                append_str(dst, x.item.as_str());
                append_str(dst, ")");
            },
            Expr::Block(b) => {
                append_str(dst, "{ ");
                append_lets(dst, &b.statements);
                b.result.append_text(dst);
                append_str(dst, " }");
            },
            Expr::Construct(c) => {
                append_str(dst, c.ty.as_str());
                append_str(dst, " { ");
                let mut i: usize = 0;
                while i < c.shown_args.len()
                    invariant
                        i <= c.shown_args.len(),
                        dst@ == start + c.ty@ + " { "@ + args_text(c.shown_args@, i as int),
                    decreases c.shown_args.len() - i,
                {
                    append_str(dst, c.shown_args[i].as_str());
                    append_str(dst, ", ");
                    i = i + 1;
                    assert(dst@ =~= start + c.ty@ + " { "@ + args_text(c.shown_args@, i as int));
                }
                append_str(dst, "}");
            },
            Expr::Name(n) => append_str(dst, n.ident.as_str()),
            Expr::OkValue(o) => {
                append_str(dst, "ok(");
                o.expr.append_text(dst);
                append_str(dst, ")");
            },
            Expr::BitFieldFrom(b) => {
                append_str(dst, "bit_field(");
                b.bits.append_text(dst);
                append_str(dst, ")");
            },
            Expr::Pad(p) => {
                let text = p.describe();
                append_str(dst, text.as_str());
            },
            Expr::Align(a) => {
                let text = a.describe();
                append_str(dst, text.as_str());
            },
            Expr::DeserializeNothing(d) => append_str(dst, d.describe()),
            Expr::DeserializeObject(d) => {
                append_str(dst, "deserialize::<");
                append_str(dst, d.ty.as_str());
                append_str(dst, ">()");
            },
            Expr::DeserializeComposite(c) => {
                append_str(dst, "composite{ ");
                c.body.append_text(dst);
                append_str(dst, " }");
            },
            Expr::UnpackObject(u) => {
                append_str(dst, "unpack(");
                append_str(dst, u.bit_field.as_str());
                append_str(dst, "[");
                append_decimal(dst, u.bit_range.start as u64);
                append_str(dst, "..");
                append_decimal(dst, u.bit_range.end as u64);
                append_str(dst, "] -> ");
                append_str(dst, u.ty.as_str());
                append_str(dst, ")");
            },
            Expr::Todo(t) => append_str(dst, t.describe()),
        }
        assert(dst@ =~= start + de_expr_text(*self));
    }

    /// How the expression is shown.
    pub fn describe(&self) -> (r: String)
        ensures
            r@ == de_expr_text(*self),
    {
        let mut v: Vec<char> = Vec::new();
        self.append_text(&mut v);
        assert(v@ =~= de_expr_text(*self));
        chars_to_string(&v)
    }
}

impl DeserializeImpl {
    /// How the implementation is shown: `impl Deserialize for name { body }`.
    pub fn describe(&self) -> (r: String)
        ensures
            r@ == "impl Deserialize for "@ + self.name@ + " { "@ + de_expr_text(self.body) + " }"@,
    {
        let mut v: Vec<char> = Vec::new();
        append_str(&mut v, "impl Deserialize for ");
        append_str(&mut v, self.name.as_str());
        append_str(&mut v, " { ");
        self.body.append_text(&mut v);
        append_str(&mut v, " }");
        assert(v@ =~= "impl Deserialize for "@ + self.name@ + " { "@ + de_expr_text(self.body) + " }"@);
        chars_to_string(&v)
    }
}

} // verus!
