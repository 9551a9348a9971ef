//! The expression tree that serialization and deserialization were first
//! lowered to, and how it is shown. Rust syntax (types, expressions,
//! identifiers) is held as text; where the tree is shown with the `Debug`
//! form of a syntax node, that form is held as text too.
use vstd::prelude::*;

use crate::attribute::Member;
use crate::text::{append_decimal, append_str, chars_to_string, decimal};

verus! {

/// The `Serialize` implementation of the type `name`.
pub struct ImplSerialize {
    pub name: String,
    pub generics: String,
    pub body: Expr,
}

/// The `Deserialize` implementation of the type `name`.
pub struct ImplDeserialize {
    pub name: String,
    pub generics: String,
    pub body: Expr,
}

/// An expression of the tree.
pub enum Expr {
    Try(Try),
    MakeTuple(MakeTuple),
    MakeStruct(MakeStruct),
    AndThen(AndThen),
    OkValue(OkValue),
    Block(Block),
    Symref(SymRef),
    Enclose(Enclose),
    Layout(Layout),
    SerializeNothing(SerializeNothing),
    SerializeObject(SerializeObject),
    SerializeComposite(SerializeComposite),
    DeserializeNothing(DeserializeNothing),
    DeserializeObject(DeserializeObject),
    DeserializeComposite(DeserializeComposite),
    NewBitField(NewBitField),
    IntoBitField(IntoBitField),
    PackObject(PackObject),
    PackBitField(PackBitField),
    UnpackObject(UnpackObject),
}

/// A statement of the tree.
pub enum Statement {
    Let(Let),
}

/// `expr`, or its error returned.
pub struct Try {
    pub expr: Box<Expr>,
}

/// The tuple of `elements`.
pub struct MakeTuple {
    pub elements: Vec<Expr>,
}

/// A member of a struct being built: the member, how its `Debug` form
/// shows it, and its value.
pub struct StructMember {
    pub member: Member,
    pub shown: String,
    pub value: Expr,
}

/// The struct `name` built from its members.
pub struct MakeStruct {
    pub name: String,
    pub members: Vec<StructMember>,
}

/// `result`, then `expr` with its success bound to `value` (or discarded).
pub struct AndThen {
    pub result: Box<Expr>,
    pub value: Option<String>,
    pub expr: Box<Expr>,
}

/// `expr` as a success.
pub struct OkValue {
    pub expr: Box<Expr>,
}

/// Statements, then a result.
pub struct Block {
    pub statements: Vec<Statement>,
    pub result: Box<Expr>,
}

/// The variable `ident`.
pub struct SymRef {
    pub ident: String,
}

/// Binds `expr` to `ident` (or discards it).
pub struct Let {
    pub ident: Option<String>,
    pub expr: Expr,
}

/// Annotates the error of `expr` with `item`.
pub struct Enclose {
    pub item: String,
    pub expr: Box<Expr>,
}

/// `expr` laid out: after padding to `offset` and aligning to `align`, and
/// inside a composite padded to `len` and rounded to `round` when either is
/// given.
pub struct Layout {
    pub expr: Box<Expr>,
    pub offset: Option<u64>,
    pub align: Option<u64>,
    pub len: Option<u64>,
    pub round: Option<u64>,
    pub direction: Direction,
}

/// One step of laying out an expression, from the inside out: each wraps
/// what the steps before it give.
#[derive(Clone, Copy, PartialEq, Eq, Structural, Debug)]
pub enum LayoutStep {
    /// After the expression, pad the composite to the given length.
    PadAfter(u64),
    /// After the expression, align the composite to the given multiple.
    AlignAfter(u64),
    /// Run what is inside as a composite of its own.
    Composite,
    /// Before what is inside, align to the given multiple.
    AlignBefore(u64),
    /// Before what is inside, pad to the given offset.
    PadBefore(u64),
}

/// The steps of a layout with these settings: padding to `len` and then
/// rounding to `round` after the expression, inside a composite when either
/// is given; then aligning to `align` and padding to `offset` before it.
pub open spec fn layout_steps(offset: Option<u64>, align: Option<u64>, len: Option<u64>, round: Option<u64>) -> Seq<LayoutStep> {
    let after_len = match len {
        Some(l) => seq![LayoutStep::PadAfter(l)],
        None => Seq::empty(),
    };
    let after_round = match round {
        Some(r) => after_len.push(LayoutStep::AlignAfter(r)),
        None => after_len,
    };
    let composite = if len is Some || round is Some {
        after_round.push(LayoutStep::Composite)
    } else {
        after_round
    };
    let aligned = match align {
        Some(a) => composite.push(LayoutStep::AlignBefore(a)),
        None => composite,
    };
    match offset {
        Some(o) => aligned.push(LayoutStep::PadBefore(o)),
        None => aligned,
    }
}

/// The steps that lay out an expression with these settings, innermost
/// first.
pub fn layout_plan(offset: Option<u64>, align: Option<u64>, len: Option<u64>, round: Option<u64>) -> (r: Vec<LayoutStep>)
    ensures
        r@ == layout_steps(offset, align, len, round),
{
    let mut steps: Vec<LayoutStep> = Vec::new();
    if let Some(l) = len {
        steps.push(LayoutStep::PadAfter(l));
    }
    if let Some(r) = round {
        steps.push(LayoutStep::AlignAfter(r));
    }
    if len.is_some() || round.is_some() {
        steps.push(LayoutStep::Composite);
    }
    if let Some(a) = align {
        steps.push(LayoutStep::AlignBefore(a));
    }
    if let Some(o) = offset {
        steps.push(LayoutStep::PadBefore(o));
    }
    assert(steps@ =~= layout_steps(offset, align, len, round));
    steps
}

/// Serializes `object` (its tokens as text; `shown` is its `Debug` form).
pub struct SerializeObject {
    pub object: String,
    pub shown: String,
}

/// Serializes what `expr` serializes as one composite.
pub struct SerializeComposite {
    pub expr: Box<Expr>,
}

/// Deserializes a `ty`.
pub struct DeserializeObject {
    pub ty: String,
}

/// Deserializes what `expr` deserializes as one composite.
pub struct DeserializeComposite {
    pub expr: Box<Expr>,
}

/// A new bit field stored as `ty`.
pub struct NewBitField {
    pub ty: String,
}

/// The bit field that `packed` holds.
pub struct IntoBitField {
    pub packed: Box<Expr>,
}

/// Packs `object` into the bits `bit_range` of `bit_field`.
pub struct PackObject {
    pub bit_field: String,
    pub object: String,
    pub bit_range: std::ops::Range<u8>,
}

/// The bit field `bit_field` stored as `packed_ty`, packed by `members`.
pub struct PackBitField {
    pub bit_field: String,
    pub packed_ty: String,
    pub members: Vec<Expr>,
}

/// Unpacks a `ty` from the bits `bit_range` of `bit_field`.
pub struct UnpackObject {
    pub bit_field: String,
    pub ty: String,
    pub bit_range: std::ops::Range<u8>,
}

/// Whether a layout serializes or deserializes.
#[derive(Clone, Copy, PartialEq, Eq, Structural, Debug)]
pub enum Direction {
    Serialize,
    Deserialize,
}

/// Serializes nothing.
#[derive(Clone, Copy, PartialEq, Eq, Structural, Debug)]
pub struct SerializeNothing;

/// Deserializes nothing.
#[derive(Clone, Copy, PartialEq, Eq, Structural, Debug)]
pub struct DeserializeNothing;

impl SerializeNothing {
    /// How the node is shown.
    pub fn describe(&self) -> (r: &'static str)
        ensures
            r@ == "serialize_nothing()"@,
    {
        "serialize_nothing()"
    }
}

impl DeserializeNothing {
    /// How the node is shown.
    pub fn describe(&self) -> (r: &'static str)
        ensures
            r@ == "deserialize_nothing()"@,
    {
        "deserialize_nothing()"
    }
}

impl Direction {
    /// The trait that a layout in this direction calls.
    pub fn trait_path(&self) -> (r: &'static str)
        ensures
            r@ == (match *self {
                Direction::Serialize => "::sorbit::serialize::Serializer"@,
                Direction::Deserialize => "::sorbit::deserialize::Deserializer"@,
            }),
    {
        match self {
            Direction::Serialize => "::sorbit::serialize::Serializer",
            Direction::Deserialize => "::sorbit::deserialize::Deserializer",
        }
    }

    /// The variable that holds the serializer or deserializer.
    pub fn object_name(&self) -> (r: &'static str)
        ensures
            r@ == (match *self {
                Direction::Serialize => "serializer"@,
                Direction::Deserialize => "deserializer"@,
            }),
    {
        match self {
            Direction::Serialize => "serializer",
            Direction::Deserialize => "deserializer",
        }
    }

    /// The method that runs a composite in this direction.
    pub fn composite_method(&self) -> (r: &'static str)
        ensures
            r@ == (match *self {
                Direction::Serialize => "serialize_composite"@,
                Direction::Deserialize => "deserialize_composite"@,
            }),
    {
        match self {
            Direction::Serialize => "serialize_composite",
            Direction::Deserialize => "deserialize_composite",
        }
    }
}

//------------------------------------------------------------------------------
// How the tree is shown.
//------------------------------------------------------------------------------

/// A variable as shown: its name, or `_`.
pub open spec fn name_or_placeholder(ident: Option<String>) -> Seq<char> {
    match ident {
        Some(name) => name@,
        None => "_"@,
    }
}

/// How a layout is shown: `layout(...)` with, separated by spaces, the
/// offset part `--n-` and the alignment part `n*n|` (both taken from the
/// alignment), the expression, and the length part `--n-` and the rounding
/// part `n*n|` (both taken from the rounding).
pub open spec fn layout_parts(align: Option<u64>, round: Option<u64>, expr: Seq<char>) -> Seq<char> {
    let before = match align {
        Some(a) => "--"@ + decimal(a as nat) + "- "@ + decimal(a as nat) + "*n| "@,
        None => Seq::empty(),
    };
    let after = match round {
        Some(r) => " --"@ + decimal(r as nat) + "- "@ + decimal(r as nat) + "*n|"@,
        None => Seq::empty(),
    };
    "layout("@ + before + expr + after + ")"@
}

/// How an expression is shown.
pub open spec fn tree_text(e: Expr) -> Seq<char>
    decreases e, 0int,
{
    match e {
        Expr::Try(t) => tree_text(*t.expr) + "?"@,
        Expr::MakeTuple(t) => "("@ + tree_list_text(t.elements@, t.elements@.len() as int) + ")"@,
        Expr::MakeStruct(m) => m.name@ + "{ "@ + struct_members_text(m.members@, m.members@.len() as int)
            + " }"@,
        Expr::AndThen(a) => tree_text(*a.result) + ".and_then(|"@ + name_or_placeholder(a.value) + "| "@
            + tree_text(*a.expr) + ")"@,
        Expr::OkValue(o) => "Ok("@ + tree_text(*o.expr) + ")"@,
        Expr::Block(b) => "{ "@ + statements_text(b.statements@, b.statements@.len() as int) + tree_text(
            *b.result,
        ) + " }"@,
        Expr::Symref(r) => r.ident@,
        Expr::Enclose(x) => "enclose("@ + tree_text(*x.expr) + ", "@ + x.item@ + ")"@,
        Expr::Layout(l) => layout_parts(l.align, l.round, tree_text(*l.expr)),
        Expr::SerializeNothing(_) => "serialize_nothing()"@,
        Expr::SerializeObject(o) => "serialize_object("@ + o.shown@ + ")"@,
        Expr::SerializeComposite(c) => "serialize_composite("@ + tree_text(*c.expr) + ")"@,
        Expr::DeserializeNothing(_) => "deserialize_nothing()"@,
        Expr::DeserializeObject(d) => "deserialize_object::<"@ + d.ty@ + ">()"@,
        Expr::DeserializeComposite(c) => "deserialize_composite("@ + tree_text(*c.expr) + ")"@,
        Expr::NewBitField(n) => "new_bit_field::<"@ + n.ty@ + ">()"@,
        Expr::IntoBitField(i) => "into_bit_field("@ + tree_text(*i.packed) + ")"@,
        Expr::PackObject(p) => "pack("@ + p.object@ + " -> "@ + p.bit_field@ + "["@ + decimal(
            p.bit_range.start as nat,
        ) + ".."@ + decimal(p.bit_range.end as nat) + "])"@,
        Expr::PackBitField(b) => "bit_field{"@ + tree_list_text(b.members@, b.members@.len() as int)
            + "}"@,
        Expr::UnpackObject(u) => "unpack("@ + u.bit_field@ + "["@ + decimal(u.bit_range.start as nat)
            + ".."@ + decimal(u.bit_range.end as nat) + "] -> "@ + u.ty@ + ")"@,
    }
}

/// The first `k` expressions shown, separated by `, `.
pub open spec fn tree_list_text(es: Seq<Expr>, k: int) -> Seq<char>
    decreases es, k,
{
    if k <= 0 || k > es.len() {
        Seq::empty()
    } else if k == 1 {
        tree_text(es[0])
    } else {
        tree_list_text(es, k - 1) + ", "@ + tree_text(es[k - 1])
    }
}

/// How a member of a struct being built is shown: `(member, value)`.
pub open spec fn struct_member_text(m: StructMember) -> Seq<char>
    decreases m, 0int,
{
    "("@ + m.shown@ + ", "@ + tree_text(m.value) + ")"@
}

/// The first `k` members shown, separated by `, `.
pub open spec fn struct_members_text(ms: Seq<StructMember>, k: int) -> Seq<char>
    decreases ms, k,
{
    if k <= 0 || k > ms.len() {
        Seq::empty()
    } else if k == 1 {
        struct_member_text(ms[0])
    } else {
        struct_members_text(ms, k - 1) + ", "@ + struct_member_text(ms[k - 1])
    }
}

/// How a statement is shown: `let variable = expr`.
pub open spec fn statement_text(s: Statement) -> Seq<char>
    decreases s, 0int,
{
    match s {
        Statement::Let(l) => "let "@ + name_or_placeholder(l.ident) + " = "@ + tree_text(l.expr),
    }
}

/// The first `k` statements shown, each followed by `; `.
pub open spec fn statements_text(ss: Seq<Statement>, k: int) -> Seq<char>
    decreases ss, k,
{
    if k <= 0 || k > ss.len() {
        Seq::empty()
    } else {
        statements_text(ss, k - 1) + statement_text(ss[k - 1]) + "; "@
    }
}

fn append_name_or_placeholder(dst: &mut Vec<char>, ident: &Option<String>)
    ensures
        final(dst)@ == old(dst)@ + name_or_placeholder(*ident),
{
    match ident {
        Some(name) => append_str(dst, name.as_str()),
        None => append_str(dst, "_"),
    }
}

fn append_tree_list(dst: &mut Vec<char>, es: &Vec<Expr>)
    ensures
        final(dst)@ == old(dst)@ + tree_list_text(es@, es@.len() as int),
    decreases es@, 0int,
{
    let ghost start = dst@;
    let mut i: usize = 0;
    while i < es.len()
        invariant
            i <= es.len(),
            dst@ == start + tree_list_text(es@, i as int),
        decreases es.len() - i,
    {
        proof {
            assert(decreases_to!(es@ => es@[i as int]));
        }
        if i > 0 {
            append_str(dst, ", ");
        }
        es[i].append_text(dst);
        i = i + 1;
        assert(dst@ =~= start + tree_list_text(es@, i as int));
    }
}

fn append_struct_members(dst: &mut Vec<char>, ms: &Vec<StructMember>)
    ensures
        final(dst)@ == old(dst)@ + struct_members_text(ms@, ms@.len() as int),
    decreases ms@, 0int,
{
    let ghost start = dst@;
    let mut i: usize = 0;
    while i < ms.len()
        invariant
            i <= ms.len(),
            dst@ == start + struct_members_text(ms@, i as int),
        decreases ms.len() - i,
    {
        proof {
            assert(decreases_to!(ms@ => ms@[i as int]));
            assert(decreases_to!(ms@[i as int] => ms@[i as int].value));
        }
        if i > 0 {
            append_str(dst, ", ");
        }
        let ghost before = dst@;
        append_str(dst, "(");
        append_str(dst, ms[i].shown.as_str());
        append_str(dst, ", ");
        ms[i].value.append_text(dst);
        append_str(dst, ")");
        assert(dst@ =~= before + struct_member_text(ms@[i as int]));
        i = i + 1;
        assert(dst@ =~= start + struct_members_text(ms@, i as int));
    }
}

fn append_statements(dst: &mut Vec<char>, ss: &Vec<Statement>)
    ensures
        final(dst)@ == old(dst)@ + statements_text(ss@, ss@.len() as int),
    decreases ss@, 0int,
{
    let ghost start = dst@;
    let mut i: usize = 0;
    while i < ss.len()
        invariant
            i <= ss.len(),
            dst@ == start + statements_text(ss@, i as int),
        decreases ss.len() - i,
    {
        proof {
            assert(decreases_to!(ss@ => ss@[i as int]));
        }
        let ghost before = dst@;
        match &ss[i] {
            Statement::Let(l) => {
                proof {
                    assert(decreases_to!(ss@[i as int] => l.expr));
                }
                append_str(dst, "let ");
                append_name_or_placeholder(dst, &l.ident);
                append_str(dst, " = ");
                l.expr.append_text(dst);
            },
        }
        append_str(dst, "; ");
        assert(dst@ =~= before + statement_text(ss@[i as int]) + "; "@);
        i = i + 1;
        assert(dst@ =~= start + statements_text(ss@, i as int));
    }
}

fn append_range(dst: &mut Vec<char>, range: &std::ops::Range<u8>)
    ensures
        final(dst)@ == old(dst)@ + decimal(range.start as nat) + ".."@ + decimal(range.end as nat),
{
    append_decimal(dst, range.start as u64);
    append_str(dst, "..");
    append_decimal(dst, range.end as u64);
}

impl Expr {
    /// Appends how the expression is shown.
    #[verifier::loop_isolation(false)]
    #[verifier::spinoff_prover]
    #[verifier::rlimit(50)]
    pub fn append_text(&self, dst: &mut Vec<char>)
        ensures
            final(dst)@ == old(dst)@ + tree_text(*self),
        decreases *self, 1int,
    {
        let ghost start = dst@;
        match self {
            Expr::Try(t) => {
                t.expr.append_text(dst);
                append_str(dst, "?");
                assert(dst@ =~= start + tree_text(*self));
            },
            Expr::MakeTuple(t) => {
                append_str(dst, "(");
                append_tree_list(dst, &t.elements);
                append_str(dst, ")");
                assert(dst@ =~= start + tree_text(*self));
            },
            Expr::MakeStruct(m) => {
                append_str(dst, m.name.as_str());
                append_str(dst, "{ ");
                append_struct_members(dst, &m.members);
                append_str(dst, " }");
                assert(dst@ =~= start + tree_text(*self));
            },
            Expr::AndThen(a) => {
                a.result.append_text(dst);
                append_str(dst, ".and_then(|");
                append_name_or_placeholder(dst, &a.value);
                append_str(dst, "| ");
                a.expr.append_text(dst);
                append_str(dst, ")");
                assert(dst@ =~= start + tree_text(*self));
            },
            Expr::OkValue(o) => {
                append_str(dst, "Ok(");
                o.expr.append_text(dst);
                append_str(dst, ")");
                assert(dst@ =~= start + tree_text(*self));
            },
            Expr::Block(b) => {
                append_str(dst, "{ ");
                append_statements(dst, &b.statements);
                b.result.append_text(dst);
                append_str(dst, " }");
                assert(dst@ =~= start + tree_text(*self));
            },
            Expr::Symref(r) => {
                append_str(dst, r.ident.as_str());
                assert(dst@ =~= start + tree_text(*self));
            },
            Expr::Enclose(x) => {
                append_str(dst, "enclose(");
                x.expr.append_text(dst);
                append_str(dst, ", ");
                append_str(dst, x.item.as_str());
                append_str(dst, ")");
                assert(dst@ =~= start + tree_text(*self));
            },
            Expr::Layout(l) => {
                append_str(dst, "layout(");
                match l.align {
                    Some(a) => {
                        append_str(dst, "--");
                        append_decimal(dst, a);
                        append_str(dst, "- ");
                        append_decimal(dst, a);
                        append_str(dst, "*n| ");
                    },
                    None => {},
                }
                l.expr.append_text(dst);
                match l.round {
                    Some(r) => {
                        append_str(dst, " --");
                        append_decimal(dst, r);
                        append_str(dst, "- ");
                        append_decimal(dst, r);
                        append_str(dst, "*n|");
                    },
                    None => {},
                }
                append_str(dst, ")");
                assert(dst@ =~= start + tree_text(*self));
            },
            Expr::SerializeNothing(n) => {
                append_str(dst, n.describe());
                assert(dst@ =~= start + tree_text(*self));
            },
            Expr::SerializeObject(o) => {
                append_str(dst, "serialize_object(");
                append_str(dst, o.shown.as_str());
                append_str(dst, ")");
                assert(dst@ =~= start + tree_text(*self));
            },
            Expr::SerializeComposite(c) => {
                append_str(dst, "serialize_composite(");
                c.expr.append_text(dst);
                append_str(dst, ")");
                assert(dst@ =~= start + tree_text(*self));
            },
            Expr::DeserializeNothing(n) => {
                append_str(dst, n.describe());
                assert(dst@ =~= start + tree_text(*self));
            },
            Expr::DeserializeObject(d) => {
                append_str(dst, "deserialize_object::<");
                append_str(dst, d.ty.as_str());
                append_str(dst, ">()");
                assert(dst@ =~= start + tree_text(*self));
            },
            Expr::DeserializeComposite(c) => {
                append_str(dst, "deserialize_composite(");
                c.expr.append_text(dst);
                append_str(dst, ")");
                assert(dst@ =~= start + tree_text(*self));
            },
            Expr::NewBitField(n) => {
                append_str(dst, "new_bit_field::<");
                append_str(dst, n.ty.as_str());
                append_str(dst, ">()");
                assert(dst@ =~= start + tree_text(*self));
            },
            Expr::IntoBitField(i) => {
                append_str(dst, "into_bit_field(");
                i.packed.append_text(dst);
                append_str(dst, ")");
                assert(dst@ =~= start + tree_text(*self));
            },
            Expr::PackObject(p) => {
                append_str(dst, "pack(");
                append_str(dst, p.object.as_str());
                append_str(dst, " -> ");
                append_str(dst, p.bit_field.as_str());
                append_str(dst, "[");
                append_range(dst, &p.bit_range);
                append_str(dst, "])");
                assert(dst@ =~= start + tree_text(*self));
            },
            Expr::PackBitField(b) => {
                append_str(dst, "bit_field{");
                append_tree_list(dst, &b.members);
                append_str(dst, "}");
                assert(dst@ =~= start + tree_text(*self));
            },
            Expr::UnpackObject(u) => {
                append_str(dst, "unpack(");
                append_str(dst, u.bit_field.as_str());
                append_str(dst, "[");
                append_range(dst, &u.bit_range);
                append_str(dst, "] -> ");
                append_str(dst, u.ty.as_str());
                append_str(dst, ")");
                assert(dst@ =~= start + tree_text(*self));
            },
        }
        assert(dst@ =~= start + tree_text(*self));
    }

    /// How the expression is shown.
    pub fn describe(&self) -> (r: String)
        ensures
            r@ == tree_text(*self),
    {
        let mut v: Vec<char> = Vec::new();
        self.append_text(&mut v);
        assert(v@ =~= tree_text(*self));
        chars_to_string(&v)
    }
}

impl ImplSerialize {
    /// How the implementation is shown: `impl Serialize for name => body`.
    pub fn describe(&self) -> (r: String)
        ensures
            r@ == "impl Serialize for "@ + self.name@ + " => "@ + tree_text(self.body),
    {
        let mut v: Vec<char> = Vec::new();
        append_str(&mut v, "impl Serialize for ");
        append_str(&mut v, self.name.as_str());
        append_str(&mut v, " => ");
        self.body.append_text(&mut v);
        chars_to_string(&v)
    }
}

impl ImplDeserialize {
    /// How the implementation is shown: `impl Deserialize for name => body`.
    pub fn describe(&self) -> (r: String)
        ensures
            r@ == "impl Deserialize for "@ + self.name@ + " => "@ + tree_text(self.body),
    {
        let mut v: Vec<char> = Vec::new();
        append_str(&mut v, "impl Deserialize for ");
        append_str(&mut v, self.name.as_str());
        append_str(&mut v, " => ");
        self.body.append_text(&mut v);
        chars_to_string(&v)
    }
}

} // verus!
