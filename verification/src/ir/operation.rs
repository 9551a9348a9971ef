//! Operations and their listing.
use vstd::prelude::*;

use crate::ir::dag::{value_text, Id, Value};
use crate::ir::region::Region;
use crate::text::{append_chars, append_str, chars_to_string, joined, str_chars};

verus! {

/// One operation: its name, identifier, the values it reads and defines, its
/// attributes (already rendered as text) and the regions nested in it. A
/// terminator ends the region that holds it.
pub struct Operation {
    pub name: String,
    pub id: Id,
    pub terminator: bool,
    pub inputs: Vec<Value>,
    pub outputs: Vec<Value>,
    pub attributes: Vec<String>,
    pub regions: Vec<Region>,
}

//------------------------------------------------------------------------------
// Results as tuples.
//------------------------------------------------------------------------------

/// Results of an operation gathered into a tuple of values.
pub trait IntoValueTuple<Tuple> {
    /// There are enough results for the tuple.
    spec fn covers(&self) -> bool;

    /// `t` holds the first results, in order.
    spec fn tuple_of(&self, t: Tuple) -> bool;

    /// The first results as a tuple.
    fn into_value_tuple(&self) -> (t: Tuple)
        requires
            self.covers(),
        ensures
            self.tuple_of(t),
    ;
}

impl IntoValueTuple<()> for Vec<Value> {
    open spec fn covers(&self) -> bool {
        true
    }

    open spec fn tuple_of(&self, t: ()) -> bool {
        true
    }

    fn into_value_tuple(&self) -> (t: ()) {
    }
}

impl IntoValueTuple<Value> for Vec<Value> {
    open spec fn covers(&self) -> bool {
        self@.len() >= 1
    }

    open spec fn tuple_of(&self, t: Value) -> bool {
        t == self@[0]
    }

    fn into_value_tuple(&self) -> (t: Value) {
        self[0]
    }
}

impl IntoValueTuple<(Value, Value)> for Vec<Value> {
    open spec fn covers(&self) -> bool {
        self@.len() >= 2
    }

    open spec fn tuple_of(&self, t: (Value, Value)) -> bool {
        t == (self@[0], self@[1])
    }

    fn into_value_tuple(&self) -> (t: (Value, Value)) {
        (self[0], self[1])
    }
}

impl IntoValueTuple<(Value, Value, Value)> for Vec<Value> {
    open spec fn covers(&self) -> bool {
        self@.len() >= 3
    }

    open spec fn tuple_of(&self, t: (Value, Value, Value)) -> bool {
        t == (self@[0], self@[1], self@[2])
    }

    fn into_value_tuple(&self) -> (t: (Value, Value, Value)) {
        (self[0], self[1], self[2])
    }
}

//------------------------------------------------------------------------------
// Mathematical form.
//------------------------------------------------------------------------------

/// The mathematical form of an [`Operation`].
pub struct OperationView {
    pub name: Seq<char>,
    pub id: usize,
    pub terminator: bool,
    pub inputs: Seq<Value>,
    pub outputs: Seq<Value>,
    pub attributes: Seq<Seq<char>>,
    pub regions: Seq<RegionView>,
}

/// The mathematical form of a [`Region`].
pub struct RegionView {
    pub id: usize,
    pub arguments: Seq<Value>,
    pub operations: Seq<OperationView>,
}

/// The mathematical form of an operation.
pub open spec fn operation_view(op: Operation) -> OperationView
    decreases op, 0int,
{
    OperationView {
        name: op.name@,
        id: op.id.0,
        terminator: op.terminator,
        inputs: op.inputs@,
        outputs: op.outputs@,
        attributes: op.attributes@.map_values(|s: String| s@),
        regions: regions_view(op.regions@, op.regions@.len() as int),
    }
}

/// The mathematical forms of the first `k` regions.
pub open spec fn regions_view(rs: Seq<Region>, k: int) -> Seq<RegionView>
    decreases rs, k,
{
    if k <= 0 || k > rs.len() {
        Seq::empty()
    } else {
        regions_view(rs, k - 1).push(region_view(rs[k - 1]))
    }
}

/// The mathematical form of a region.
pub open spec fn region_view(r: Region) -> RegionView
    decreases r, 0int,
{
    proof {
        r.lemma_operation_list_decreases();
    }
    RegionView {
        id: r.ident().0,
        arguments: r.args(),
        operations: operations_view(r.ops(), r.ops().len() as int),
    }
}

/// The mathematical forms of the first `k` operations.
pub open spec fn operations_view(os: Seq<Operation>, k: int) -> Seq<OperationView>
    decreases os, k,
{
    if k <= 0 || k > os.len() {
        Seq::empty()
    } else {
        operations_view(os, k - 1).push(operation_view(os[k - 1]))
    }
}

/// The mathematical forms of all the operations.
pub open spec fn ops_view(os: Seq<Operation>) -> Seq<OperationView> {
    operations_view(os, os.len() as int)
}

/// The mathematical forms of all the regions.
pub open spec fn all_regions_view(rs: Seq<Region>) -> Seq<RegionView> {
    regions_view(rs, rs.len() as int)
}

proof fn lemma_operations_view_prefix(os: Seq<Operation>, x: Operation, k: int)
    requires
        0 <= k <= os.len(),
    ensures
        operations_view(os.push(x), k) == operations_view(os, k),
    decreases k,
{
    if k > 0 {
        lemma_operations_view_prefix(os, x, k - 1);
        assert(os.push(x)[k - 1] == os[k - 1]);
    }
}

/// Appending an operation appends its form.
pub proof fn lemma_ops_view_push(os: Seq<Operation>, x: Operation)
    ensures
        ops_view(os.push(x)) == ops_view(os).push(operation_view(x)),
{
    lemma_operations_view_prefix(os, x, os.len() as int);
    assert(os.push(x)[os.len() as int] == x);
}

proof fn lemma_regions_view_index(rs: Seq<Region>, k: int, i: int)
    requires
        0 <= i < k <= rs.len(),
    ensures
        regions_view(rs, k).len() == k,
        regions_view(rs, k)[i] == region_view(rs[i]),
    decreases k,
{
    if i < k - 1 {
        lemma_regions_view_index(rs, k - 1, i);
    } else {
        lemma_regions_view_len(rs, k - 1);
    }
}

proof fn lemma_regions_view_len(rs: Seq<Region>, k: int)
    requires
        0 <= k <= rs.len(),
    ensures
        regions_view(rs, k).len() == k,
    decreases k,
{
    if k > 0 {
        lemma_regions_view_len(rs, k - 1);
    }
}

/// The forms of the regions, one by one.
pub proof fn lemma_all_regions_view(rs: Seq<Region>)
    ensures
        all_regions_view(rs).len() == rs.len(),
        forall|i: int| 0 <= i < rs.len() ==> #[trigger] all_regions_view(rs)[i] == region_view(rs[i]),
{
    lemma_regions_view_len(rs, rs.len() as int);
    assert forall|i: int| 0 <= i < rs.len() implies #[trigger] all_regions_view(rs)[i]
        == region_view(rs[i]) by {
        lemma_regions_view_index(rs, rs.len() as int, i);
    }
}

//------------------------------------------------------------------------------
// Listing.
//------------------------------------------------------------------------------

/// Values listed with `, ` between them.
pub open spec fn values_text(vs: Seq<Value>) -> Seq<char> {
    joined(vs.map_values(|v: Value| value_text(v)), ", "@)
}

/// Texts listed with `, ` between them.
pub open spec fn strings_text(ss: Seq<String>) -> Seq<char> {
    joined(ss.map_values(|s: String| s@), ", "@)
}

/// `prefix + text` when `text` is not empty, else nothing.
pub open spec fn unless_empty(prefix: Seq<char>, text: Seq<char>, suffix: Seq<char>) -> Seq<char> {
    if text.len() > 0 {
        prefix + text + suffix
    } else {
        Seq::empty()
    }
}

/// A character with the Unicode `White_Space` property, which
/// `char::is_whitespace` (and so `str::trim`) goes by.
pub open spec fn is_white_space(c: char) -> bool {
    let u = c as u32;
    ||| u == 0x20
    ||| 0x09 <= u <= 0x0D
    ||| u == 0x85
    ||| u == 0xA0
    ||| u == 0x1680
    ||| 0x2000 <= u <= 0x200A
    ||| u == 0x2028
    ||| u == 0x2029
    ||| u == 0x202F
    ||| u == 0x205F
    ||| u == 0x3000
}

/// A line that holds nothing but whitespace (`line.trim().is_empty()`).
pub open spec fn is_blank(line: Seq<char>) -> bool {
    forall|i: int| 0 <= i < line.len() ==> is_white_space(#[trigger] line[i])
}

/// `s` without its trailing whitespace (`str::trim_end`).
pub open spec fn trim_end(s: Seq<char>) -> Seq<char>
    decreases s.len(),
{
    if s.len() > 0 && is_white_space(s.last()) {
        trim_end(s.drop_last())
    } else {
        s
    }
}

/// The pieces of `s` between line feeds (`str::split`), at least one.
pub open spec fn pieces(s: Seq<char>) -> Seq<Seq<char>>
    decreases s.len(),
{
    if s.len() == 0 {
        seq![Seq::empty()]
    } else {
        let p = pieces(s.drop_last());
        if s.last() == '\n' {
            p.push(Seq::empty())
        } else {
            p.update(p.len() - 1, p.last().push(s.last()))
        }
    }
}

/// The lines of `s` as `str::split_terminator` gives them: the pieces
/// between line feeds, without the empty piece after a final one (nor the
/// one piece of an empty text).
pub open spec fn lines_of(s: Seq<char>) -> Seq<Seq<char>> {
    if s.len() == 0 || s.last() == '\n' {
        pieces(s).drop_last()
    } else {
        pieces(s)
    }
}

/// What `textwrap::indent` makes of `text` with `prefix`: each line after
/// `prefix` (after `prefix` without its trailing whitespace when the line is
/// blank), the lines joined by line feeds, and a final line feed kept.
pub open spec fn indented(text: Seq<char>, prefix: Seq<char>) -> Seq<char> {
    joined(
        lines_of(text).map_values(
            |line: Seq<char>|
                if is_blank(line) {
                    trim_end(prefix) + line
                } else {
                    prefix + line
                },
        ),
        "\n"@,
    ) + if text.len() > 0 && text.last() == '\n' {
        "\n"@
    } else {
        Seq::empty()
    }
}

/// Indents every line of `text` by `prefix` (`textwrap::indent`).
///
/// Trusted: `textwrap::indent` splits `text` with `split_terminator('\n')`,
/// puts `prefix` before each line (`prefix.trim_end()` before a line that
/// `trim` leaves empty), joins the lines with line feeds and keeps a final
/// line feed; [`indented`] says the same.
#[verifier::external_body]
fn indent(text: &str, prefix: &str) -> (r: String)
    ensures
        r@ == indented(text@, prefix@),
{
    textwrap::indent(text, prefix)
}

/// The listing of an operation: a `match` lists its arms; any other
/// operation is listed as [`generic_text`] says.
pub open spec fn operation_text(op: Operation, alternate: bool) -> Seq<char>
    decreases op, 2int,
{
    if op.name@ == "match"@ {
        match_text(op, alternate)
    } else {
        generic_text(op, alternate)
    }
}

/// The listing of a `match`: `result = match expr {`, then each arm as
/// `pattern => region`, on lines of their own indented by four spaces in
/// the alternate form (with single spaces otherwise), then `}`. The arm's
/// pattern (with its guard) is the attribute at its place.
pub open spec fn match_text(op: Operation, alternate: bool) -> Seq<char>
    decreases op, 1int,
{
    let sep = if alternate {
        "\n"@
    } else {
        " "@
    };
    let arms = arms_text(op.attributes@, op.regions@, alternate, op.regions@.len() as int);
    let body = if alternate {
        indented(arms, "    "@)
    } else {
        arms
    };
    values_text(op.outputs@) + " = match "@ + values_text(op.inputs@) + " {"@ + sep + body + sep + "}"@
}

/// The pattern of the arm at `i`: the attribute at its place, or nothing
/// when there is none.
pub open spec fn pattern_at(patterns: Seq<String>, i: int) -> Seq<char> {
    if 0 <= i < patterns.len() {
        patterns[i]@
    } else {
        Seq::empty()
    }
}

/// The first `k` arms of a `match`, each `pattern => region`, separated by
/// a line break in the alternate form and by a space otherwise.
pub open spec fn arms_text(patterns: Seq<String>, rs: Seq<Region>, alternate: bool, k: int) -> Seq<char>
    decreases rs, k,
{
    if k <= 0 || k > rs.len() {
        Seq::empty()
    } else {
        let arm = pattern_at(patterns, k - 1) + " => "@ + region_text(rs[k - 1], alternate);
        if k == 1 {
            arm
        } else {
            arms_text(patterns, rs, alternate, k - 1) + (if alternate {
                "\n"@
            } else {
                " "@
            }) + arm
        }
    }
}

/// The listing of any other operation:
/// `outputs = name [attributes] inputs regions`, each part left out (with
/// its separator) when its text is empty.
pub open spec fn generic_text(op: Operation, alternate: bool) -> Seq<char>
    decreases op, 1int,
{
    unless_empty(Seq::empty(), values_text(op.outputs@), " = "@) + op.name@ + unless_empty(
        " ["@,
        strings_text(op.attributes@),
        "]"@,
    ) + unless_empty(" "@, values_text(op.inputs@), Seq::empty()) + unless_empty(
        " "@,
        regions_text(op.regions@, alternate, op.regions@.len() as int),
        Seq::empty(),
    )
}

/// The listings of the first `k` regions, with a space between them.
pub open spec fn regions_text(rs: Seq<Region>, alternate: bool, k: int) -> Seq<char>
    decreases rs, k,
{
    if k <= 0 || k > rs.len() {
        Seq::empty()
    } else if k == 1 {
        region_text(rs[0], alternate)
    } else {
        regions_text(rs, alternate, k - 1) + " "@ + region_text(rs[k - 1], alternate)
    }
}

/// The listing of a region: `|arguments| ` when it has arguments, then the
/// listings of its operations one per line between `{` and `}`; in the
/// alternate form each line is indented by four spaces.
pub open spec fn region_text(r: Region, alternate: bool) -> Seq<char>
    decreases r, 0int,
{
    proof {
        r.lemma_operation_list_decreases();
    }
    unless_empty("|"@, values_text(r.args()), "| "@) + "{\n"@ + indented(
        operations_text(r.ops(), alternate, r.ops().len() as int),
        if alternate {
            "    "@
        } else {
            ""@
        },
    ) + "\n}"@
}

/// The listings of the first `k` operations, one per line.
pub open spec fn operations_text(os: Seq<Operation>, alternate: bool, k: int) -> Seq<char>
    decreases os, k,
{
    if k <= 0 || k > os.len() {
        Seq::empty()
    } else if k == 1 {
        operation_text(os[0], alternate)
    } else {
        operations_text(os, alternate, k - 1) + "\n"@ + operation_text(os[k - 1], alternate)
    }
}

/// Lists values with `, ` between them.
pub fn values_to_text(vs: &Vec<Value>) -> (r: Vec<char>)
    ensures
        r@ == values_text(vs@),
{
    let mut parts: Vec<Vec<char>> = Vec::new();
    let mut i: usize = 0;
    while i < vs.len()
        invariant
            i <= vs.len(),
            crate::text::views(parts@) == vs@.take(i as int).map_values(|v: Value| value_text(v)),
        decreases vs.len() - i,
    {
        let mut part: Vec<char> = Vec::new();
        vs[i].append_text(&mut part);
        let ghost before = parts@;
        parts.push(part);
        assert(crate::text::views(parts@) =~= crate::text::views(before).push(part@));
        i = i + 1;
        assert(crate::text::views(parts@) =~= vs@.take(i as int).map_values(
            |v: Value| value_text(v),
        ));
    }
    assert(vs@.take(vs.len() as int) =~= vs@);
    crate::text::join(&parts, ", ")
}

/// Lists texts with `, ` between them.
pub fn strings_to_text(ss: &Vec<String>) -> (r: Vec<char>)
    ensures
        r@ == strings_text(ss@),
{
    let mut parts: Vec<Vec<char>> = Vec::new();
    let mut i: usize = 0;
    while i < ss.len()
        invariant
            i <= ss.len(),
            crate::text::views(parts@) == ss@.take(i as int).map_values(|s: String| s@),
        decreases ss.len() - i,
    {
        let part = str_chars(ss[i].as_str());
        let ghost before = parts@;
        parts.push(part);
        assert(crate::text::views(parts@) =~= crate::text::views(before).push(part@));
        i = i + 1;
        assert(crate::text::views(parts@) =~= ss@.take(i as int).map_values(|s: String| s@));
    }
    assert(ss@.take(ss.len() as int) =~= ss@);
    crate::text::join(&parts, ", ")
}

fn append_unless_empty(dst: &mut Vec<char>, prefix: &str, text: &Vec<char>, suffix: &str)
    ensures
        final(dst)@ == old(dst)@ + unless_empty(prefix@, text@, suffix@),
{
    if text.len() > 0 {
        append_str(dst, prefix);
        append_chars(dst, text);
        append_str(dst, suffix);
        assert(final(dst)@ =~= old(dst)@ + unless_empty(prefix@, text@, suffix@));
    } else {
        assert(final(dst)@ =~= old(dst)@ + unless_empty(prefix@, text@, suffix@));
    }
}

impl Operation {
    /// The listing of the operation, as [`operation_text`] gives it.
    pub fn to_text(&self, alternate: bool) -> (r: Vec<char>)
        ensures
            r@ == operation_text(*self, alternate),
        decreases *self, 2int,
    {
        proof {
            reveal_strlit("match");
        }
        if crate::text::str_equal(self.name.as_str(), "match") {
            self.match_to_text(alternate)
        } else {
            self.generic_to_text(alternate)
        }
    }

    /// The listing of a `match`, as [`match_text`] gives it.
    fn match_to_text(&self, alternate: bool) -> (r: Vec<char>)
        ensures
            r@ == match_text(*self, alternate),
        decreases *self, 1int,
    {
        let sep = if alternate {
            "\n"
        } else {
            " "
        };
        let mut arms: Vec<char> = Vec::new();
        let mut i: usize = 0;
        while i < self.regions.len()
            invariant
                i <= self.regions.len(),
                sep@ == (if alternate {
                    "\n"@
                } else {
                    " "@
                }),
                arms@ == arms_text(self.attributes@, self.regions@, alternate, i as int),
            decreases self.regions.len() - i,
        {
            proof {
                assert(decreases_to!(*self => self.regions@[i as int]));
            }
            let region_listing = self.regions[i].to_text(alternate);
            if i > 0 {
                append_str(&mut arms, sep);
            }
            if i < self.attributes.len() {
                append_str(&mut arms, self.attributes[i].as_str());
            }
            append_str(&mut arms, " => ");
            append_chars(&mut arms, &region_listing);
            i = i + 1;
        }
        let arms_listing = if alternate {
            str_chars(indent(chars_to_string(&arms).as_str(), "    ").as_str())
        } else {
            arms
        };
        let outputs = values_to_text(&self.outputs);
        let inputs = values_to_text(&self.inputs);
        let mut r: Vec<char> = Vec::new();
        append_chars(&mut r, &outputs);
        append_str(&mut r, " = match ");
        append_chars(&mut r, &inputs);
        append_str(&mut r, " {");
        append_str(&mut r, sep);
        append_chars(&mut r, &arms_listing);
        append_str(&mut r, sep);
        append_str(&mut r, "}");
        r
    }

    /// The listing of an operation other than `match`, as [`generic_text`]
    /// gives it.
    fn generic_to_text(&self, alternate: bool) -> (r: Vec<char>)
        ensures
            r@ == generic_text(*self, alternate),
        decreases *self, 1int,
    {
        let mut regions: Vec<char> = Vec::new();
        let mut i: usize = 0;
        while i < self.regions.len()
            invariant
                i <= self.regions.len(),
                regions@ == regions_text(self.regions@, alternate, i as int),
            decreases self.regions.len() - i,
        {
            proof {
                assert(decreases_to!(*self => self.regions@[i as int]));
            }
            let region_listing = self.regions[i].to_text(alternate);
            if i > 0 {
                append_str(&mut regions, " ");
            }
            append_chars(&mut regions, &region_listing);
            i = i + 1;
        }
        let outputs = values_to_text(&self.outputs);
        let inputs = values_to_text(&self.inputs);
        let attributes = strings_to_text(&self.attributes);
        let mut r: Vec<char> = Vec::new();
        let empty: Vec<char> = Vec::new();
        append_unless_empty(&mut r, "", &outputs, " = ");
        append_str(&mut r, self.name.as_str());
        append_unless_empty(&mut r, " [", &attributes, "]");
        append_unless_empty(&mut r, " ", &inputs, "");
        append_unless_empty(&mut r, " ", &regions, "");
        proof {
            reveal_strlit("");
            assert(""@ =~= Seq::<char>::empty());
            assert(r@ =~= generic_text(*self, alternate));
        }
        r
    }

    /// The listing of the operation as a `String`.
    pub fn to_string(&self, alternate: bool) -> (r: String)
        ensures
            r@ == operation_text(*self, alternate),
    {
        chars_to_string(&self.to_text(alternate))
    }
}

impl Region {
    /// The listing of the region, as [`region_text`] gives it.
    pub fn to_text(&self, alternate: bool) -> (r: Vec<char>)
        ensures
            r@ == region_text(*self, alternate),
        decreases *self, 0int,
    {
        let mut operations: Vec<char> = Vec::new();
        let mut i: usize = 0;
        while i < self.operations().len()
            invariant
                i <= self.ops().len(),
                operations@ == operations_text(self.ops(), alternate, i as int),
            decreases self.ops().len() - i,
        {
            proof {
                self.lemma_operations_decrease(i as int);
            }
            let listing = self.operations()[i].to_text(alternate);
            if i > 0 {
                append_str(&mut operations, "\n");
            }
            append_chars(&mut operations, &listing);
            i = i + 1;
        }
        let prefix = if alternate {
            "    "
        } else {
            ""
        };
        let body = indent(chars_to_string(&operations).as_str(), prefix);
        let arguments = values_to_text(self.arguments());
        let mut r: Vec<char> = Vec::new();
        append_unless_empty(&mut r, "|", &arguments, "| ");
        append_str(&mut r, "{\n");
        append_str(&mut r, body.as_str());
        append_str(&mut r, "\n}");
        r
    }

    /// The listing of the region as a `String`.
    pub fn to_string(&self, alternate: bool) -> (r: String)
        ensures
            r@ == region_text(*self, alternate),
    {
        chars_to_string(&self.to_text(alternate))
    }
}

} // verus!
