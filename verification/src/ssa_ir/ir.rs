use vstd::prelude::*;

use crate::text::{
    append_chars, append_decimal, append_repeated, append_str, chars_to_string, decimal, join,
    joined, repeated, str_chars, utf8_len, utf8_width, views,
};

use crate::attribute::Member;
use crate::ir::region::{Statement, StatementForm};
use crate::schedule::{dependencies_ordered, in_place, schedule};

verus! {

//------------------------------------------------------------------------------
// Values, operations and regions.
//------------------------------------------------------------------------------

/// The source of operation identifiers: it hands out `next` and moves on by
/// one, wrapping around after `u64::MAX` as an atomic counter does.
pub struct OperationIds {
    pub next: u64,
}

impl OperationIds {
    /// A source that starts at 0.
    pub fn new() -> (s: Self)
        ensures
            s.next == 0,
    {
        OperationIds { next: 0 }
    }
}

/// The identifier after `n`, wrapping around.
pub open spec fn following_id(n: u64) -> u64 {
    if n == u64::MAX {
        0
    } else {
        (n + 1) as u64
    }
}

/// Takes the next identifier from `ids`.
pub fn unique_id(ids: &mut OperationIds) -> (id: u64)
    ensures
        id == old(ids).next,
        final(ids).next == following_id(old(ids).next),
{
    let id = ids.next;
    ids.next = if id == u64::MAX {
        0
    } else {
        id + 1
    };
    id
}

/// The identifier that a source starting at `start` hands out after `k`
/// others.
pub open spec fn nth_operation_id(start: u64, k: nat) -> u64
    decreases k,
{
    if k == 0 {
        start
    } else {
        following_id(nth_operation_id(start, (k - 1) as nat))
    }
}

/// Within one round of the counter, the `k`-th identifier is `start + k`
/// wrapped around once.
proof fn lemma_nth_operation_id_value(start: u64, k: nat)
    requires
        k <= u64::MAX,
    ensures
        nth_operation_id(start, k) == if start + k <= u64::MAX {
            start + k
        } else {
            start + k - u64::MAX - 1
        },
    decreases k,
{
    if k > 0 {
        lemma_nth_operation_id_value(start, (k - 1) as nat);
    }
}

/// A source of operation identifiers hands out no identifier twice as long
/// as fewer than 2^64 are taken: the `a`-th and the `b`-th differ.
pub proof fn lemma_operation_ids_distinct(start: u64, a: nat, b: nat)
    requires
        a != b,
        a <= u64::MAX,
        b <= u64::MAX,
    ensures
        nth_operation_id(start, a) != nth_operation_id(start, b),
{
    lemma_nth_operation_id_value(start, a);
    lemma_nth_operation_id_value(start, b);
}

/// A value: the `index`-th result of the operation (or argument of the
/// region) with identifier `parent`.
#[derive(Clone, Copy, PartialEq, Eq, Structural, Debug)]
pub struct Value {
    pub parent: u64,
    pub index: usize,
}

/// How a value is shown: `%parent_index`.
pub open spec fn ssa_value_text(v: Value) -> Seq<char> {
    seq!['%'] + decimal(v.parent as nat) + seq!['_'] + decimal(v.index as nat)
}

/// The variable generated code binds a value to: `vparent_index`.
pub open spec fn ssa_value_ident(v: Value) -> Seq<char> {
    seq!['v'] + decimal(v.parent as nat) + seq!['_'] + decimal(v.index as nat)
}

impl Value {
    /// A value of its own, not defined by any operation.
    pub fn new_standalone(ids: &mut OperationIds) -> (v: Value)
        ensures
            v.parent == old(ids).next,
            v.index == 0,
            final(ids).next == following_id(old(ids).next),
    {
        Value { parent: unique_id(ids), index: 0 }
    }

    fn append_text(&self, dst: &mut Vec<char>)
        ensures
            final(dst)@ == old(dst)@ + ssa_value_text(*self),
    {
        dst.push('%');
        append_decimal(dst, self.parent);
        dst.push('_');
        append_decimal(dst, self.index as u64);
        assert(final(dst)@ =~= old(dst)@ + ssa_value_text(*self));
    }

    /// How the value is shown, `%parent_index`.
    pub fn describe(&self) -> (r: String)
        ensures
            r@ == ssa_value_text(*self),
    {
        let mut v: Vec<char> = Vec::new();
        self.append_text(&mut v);
        chars_to_string(&v)
    }

    /// The variable generated code binds the value to, `vparent_index`.
    pub fn to_ident(&self) -> (r: String)
        ensures
            r@ == ssa_value_ident(*self),
    {
        let mut v: Vec<char> = Vec::new();
        v.push('v');
        append_decimal(&mut v, self.parent);
        v.push('_');
        append_decimal(&mut v, self.index as u64);
        assert(v@ =~= ssa_value_ident(*self));
        chars_to_string(&v)
    }
}

/// How generated code writes an operation: the kind of expression, with
/// what it needs beyond the operation's inputs, results and regions (names,
/// types and generics as their text).
#[derive(PartialEq, Eq, Debug)]
pub enum Rendering {
    ImplSerialize { name: String, generics: String },
    ImplDeserialize { name: String, generics: String },
    SelfValue,
    Reference,
    Yield,
    Execute,
    MemberAccess { member: Member, reference: bool },
    Question,
    OkValue,
    Tuple,
    StructValue { ty: String, members: Vec<Member> },
    Pad { until: u64, serializing: bool },
    Align { multiple_of: u64, serializing: bool },
    SerializeNothing,
    SerializeObject,
    SerializeComposite,
    DeserializeObject { ty: String },
    DeserializeComposite,
    EmptyBitField { packed_ty: String },
    IntoBitField,
    IntoRawBits,
    PackBitField { bits: std::ops::Range<u8> },
    UnpackBitField { ty: String, bits: std::ops::Range<u8> },
}

/// An operation: its mnemonic and attributes, how generated code writes it,
/// how many results it has, the values it reads and the regions nested in
/// it.
pub struct Operation {
    pub id: u64,
    pub mnemonic: String,
    pub attributes: Vec<String>,
    pub rendering: Rendering,
    pub num_outputs: usize,
    pub inputs: Vec<Value>,
    pub regions: Vec<Region>,
}

/// A region: its arguments and its operations.
pub struct Region {
    pub arguments: Vec<Value>,
    pub operations: Vec<Operation>,
}

/// The first `n` values of `parent`.
pub open spec fn values_of(parent: u64, n: nat) -> Seq<Value> {
    Seq::new(n, |i: int| Value { parent, index: i as usize })
}

impl Operation {
    /// An operation with a fresh identifier.
    pub fn new(
        ids: &mut OperationIds,
        mnemonic: String,
        attributes: Vec<String>,
        rendering: Rendering,
        num_outputs: usize,
        inputs: Vec<Value>,
        regions: Vec<Region>,
    ) -> (op: Operation)
        ensures
            op.id == old(ids).next,
            final(ids).next == following_id(old(ids).next),
            op.mnemonic == mnemonic,
            op.attributes == attributes,
            op.rendering == rendering,
            op.num_outputs == num_outputs,
            op.inputs == inputs,
            op.regions == regions,
    {
        Operation { id: unique_id(ids), mnemonic, attributes, rendering, num_outputs, inputs, regions }
    }

    /// The mnemonic of the operation.
    pub fn mnemonic(&self) -> (r: &str)
        ensures
            r@ == self.mnemonic@,
    {
        self.mnemonic.as_str()
    }

    /// The `index`-th result of the operation.
    pub fn output(&self, index: usize) -> (v: Value)
        requires
            index < self.num_outputs,
        ensures
            v == (Value { parent: self.id, index }),
    {
        Value { parent: self.id, index }
    }
}

impl Region {
    /// A region whose `num_args` arguments share a fresh identifier, with the
    /// operations that `operations` builds from them.
    pub fn new<F: FnOnce(&Vec<Value>) -> Vec<Operation>>(
        ids: &mut OperationIds,
        num_args: usize,
        operations: F,
    ) -> (r: Region)
        requires
            forall|args: &Vec<Value>| operations.requires((args,)),
        ensures
            r.arguments@ == values_of(old(ids).next, num_args as nat),
            final(ids).next == following_id(old(ids).next),
            operations.ensures((&r.arguments,), r.operations),
    {
        let arguments = Self::fresh_arguments(ids, num_args);
        let ops = operations(&arguments);
        Region { arguments, operations: ops }
    }

    /// The `num_args` arguments of a new region, under a fresh identifier.
    pub fn fresh_arguments(ids: &mut OperationIds, num_args: usize) -> (arguments: Vec<Value>)
        ensures
            arguments@ == values_of(old(ids).next, num_args as nat),
            final(ids).next == following_id(old(ids).next),
    {
        let id = unique_id(ids);
        let mut arguments: Vec<Value> = Vec::new();
        let mut i: usize = 0;
        while i < num_args
            invariant
                i <= num_args,
                arguments@ == values_of(id, i as nat),
            decreases num_args - i,
        {
            arguments.push(Value { parent: id, index: i });
            i = i + 1;
            assert(arguments@ =~= values_of(id, i as nat));
        }
        arguments
    }

    /// The operations of the region.
    pub fn operations(&self) -> (r: &Vec<Operation>)
        ensures
            r@ == self.operations@,
    {
        &self.operations
    }

    /// The `index`-th argument of the region.
    pub fn argument(&self, index: usize) -> (v: Value)
        requires
            index < self.arguments@.len(),
        ensures
            v == self.arguments@[index as int],
    {
        self.arguments[index]
    }
}

/// How generated code binds the results of an operation: `yield` stands
/// alone, and the others are bound by the number of their results.
pub open spec fn ssa_statement_form(op: Operation) -> StatementForm {
    if op.mnemonic@ == "yield"@ {
        StatementForm::Terminator
    } else if op.num_outputs == 0 {
        StatementForm::Discard
    } else if op.num_outputs == 1 {
        StatementForm::Bind
    } else {
        StatementForm::BindTuple
    }
}

/// The identifiers of operations, as the scheduler takes them.
pub open spec fn ssa_operation_ids(ops: Seq<Operation>) -> Seq<u64> {
    ops.map_values(|op: Operation| op.id)
}

/// The parents of the inputs of each operation, as the scheduler takes them.
pub open spec fn ssa_input_parents(ops: Seq<Operation>) -> Seq<Seq<u64>> {
    ops.map_values(|op: Operation| op.inputs@.map_values(|v: Value| v.parent))
}

impl Region {
    /// The statements of generated code for the region: every operation in
    /// place with the form of its binding, provided every operation comes
    /// after the producers of its inputs; otherwise a node of the dependency
    /// cycle that an input produced too late makes.
    pub fn statements(&self) -> (r: Result<Vec<Statement>, usize>)
        ensures
            match r {
                Ok(stmts) => {
                    &&& stmts@.len() == self.operations@.len()
                    &&& forall|i: int|
                        0 <= i < stmts@.len() ==> (#[trigger] stmts@[i]).operation == i
                            && stmts@[i].form == ssa_statement_form(self.operations@[i])
                    &&& dependencies_ordered(
                        ssa_operation_ids(self.operations@),
                        ssa_input_parents(self.operations@),
                    )
                },
                Err(node) => node < self.operations@.len() && !dependencies_ordered(
                    ssa_operation_ids(self.operations@),
                    ssa_input_parents(self.operations@),
                ),
            },
    {
        let mut ids: Vec<u64> = Vec::new();
        let mut inputs: Vec<Vec<u64>> = Vec::new();
        let mut i: usize = 0;
        while i < self.operations.len()
            invariant
                i <= self.operations.len(),
                ids@ == ssa_operation_ids(self.operations@).take(i as int),
                inputs@.map_values(|v: Vec<u64>| v@) == ssa_input_parents(self.operations@).take(
                    i as int,
                ),
            decreases self.operations.len() - i,
        {
            let op = &self.operations[i];
            let mut parents: Vec<u64> = Vec::new();
            let mut k: usize = 0;
            while k < op.inputs.len()
                invariant
                    k <= op.inputs.len(),
                    parents@ == op.inputs@.take(k as int).map_values(|v: Value| v.parent),
                decreases op.inputs.len() - k,
            {
                parents.push(op.inputs[k].parent);
                k = k + 1;
                assert(parents@ =~= op.inputs@.take(k as int).map_values(|v: Value| v.parent));
            }
            assert(op.inputs@.take(op.inputs.len() as int) =~= op.inputs@);
            ids.push(op.id);
            let ghost before = inputs@;
            let ghost owned = parents@;
            inputs.push(parents);
            assert(inputs@.map_values(|v: Vec<u64>| v@) =~= before.map_values(|v: Vec<u64>| v@).push(
                owned,
            ));
            assert(ssa_input_parents(self.operations@)[i as int] == owned);
            i = i + 1;
            assert(ids@ =~= ssa_operation_ids(self.operations@).take(i as int));
            assert(inputs@.map_values(|v: Vec<u64>| v@) =~= ssa_input_parents(self.operations@).take(
                i as int,
            ));
        }
        assert(ssa_operation_ids(self.operations@).take(i as int) =~= ssa_operation_ids(self.operations@));
        assert(ssa_input_parents(self.operations@).take(i as int) =~= ssa_input_parents(self.operations@));
        match schedule(&ids, &inputs) {
            Ok(order) => {
                let mut stmts: Vec<Statement> = Vec::new();
                let mut j: usize = 0;
                while j < order.len()
                    invariant
                        order@ == in_place(self.operations@.len()),
                        j <= order.len(),
                        stmts@.len() == j,
                        forall|q: int|
                            0 <= q < j ==> (#[trigger] stmts@[q]).operation == q && stmts@[q].form
                                == ssa_statement_form(self.operations@[q]),
                    decreases order.len() - j,
                {
                    let index = order[j];
                    let op = &self.operations[index];
                    let is_yield = crate::text::chars_equal(&str_chars(op.mnemonic.as_str()), &str_chars("yield"));
                    let form = if is_yield {
                        StatementForm::Terminator
                    } else if op.num_outputs == 0 {
                        StatementForm::Discard
                    } else if op.num_outputs == 1 {
                        StatementForm::Bind
                    } else {
                        StatementForm::BindTuple
                    };
                    stmts.push(Statement { operation: index, form });
                    j = j + 1;
                }
                Ok(stmts)
            },
            Err(node) => Err(node),
        }
    }
}

//------------------------------------------------------------------------------
// How operations and regions are shown.
//------------------------------------------------------------------------------

/// Values shown with `sep` between them.
pub open spec fn ssa_values_text(vs: Seq<Value>, sep: Seq<char>) -> Seq<char> {
    joined(vs.map_values(|v: Value| ssa_value_text(v)), sep)
}

/// Each value shown after a space.
pub open spec fn spaced_values_text(vs: Seq<Value>) -> Seq<char>
    decreases vs.len(),
{
    if vs.len() == 0 {
        Seq::empty()
    } else {
        spaced_values_text(vs.drop_last()) + seq![' '] + ssa_value_text(vs.last())
    }
}

/// `s` with four spaces before each of its lines, as a pretty-printing
/// formatter nests an entry; `at_line_start` says whether `s` starts a line.
pub open spec fn padded(s: Seq<char>, at_line_start: bool) -> Seq<char>
    decreases s.len(),
{
    if s.len() == 0 {
        Seq::empty()
    } else {
        (if at_line_start {
            "    "@
        } else {
            Seq::empty()
        }) + seq![s[0]] + padded(s.skip(1), s[0] == '\n')
    }
}

/// The results of an operation shown before its mnemonic, when it has any.
pub open spec fn outputs_debug(id: u64, num_outputs: usize) -> Seq<char> {
    if num_outputs > 0 {
        ssa_values_text(values_of(id, num_outputs as nat), ", "@) + " = "@
    } else {
        Seq::empty()
    }
}

/// The attributes of an operation shown in brackets, when it has any.
pub open spec fn attributes_debug(attributes: Seq<String>) -> Seq<char> {
    if attributes.len() > 0 {
        "["@ + joined(attributes.map_values(|a: String| a@), ", "@) + "]"@
    } else {
        Seq::empty()
    }
}

/// How an operation is shown: `outputs = mnemonic[attributes] inputs regions`,
/// with the outputs only when there are any and the attributes only when
/// there are any.
pub open spec fn operation_debug(op: Operation, alternate: bool) -> Seq<char>
    decreases op, 0int,
{
    outputs_debug(op.id, op.num_outputs) + op.mnemonic@ + attributes_debug(op.attributes@)
        + spaced_values_text(op.inputs@) + regions_debug(
        op.regions@,
        alternate,
        op.regions@.len() as int,
    )
}

/// The first `k` regions shown, each after a space.
pub open spec fn regions_debug(rs: Seq<Region>, alternate: bool, k: int) -> Seq<char>
    decreases rs, k,
{
    if k <= 0 || k > rs.len() {
        Seq::empty()
    } else {
        regions_debug(rs, alternate, k - 1) + seq![' '] + region_debug(rs[k - 1], alternate)
    }
}

/// How a region is shown: `|arguments| ` and then its operations as a list,
/// on one line, or one per line, indented, in the alternate form.
pub open spec fn region_debug(r: Region, alternate: bool) -> Seq<char>
    decreases r, 0int,
{
    "|"@ + ssa_values_text(r.arguments@, ", "@) + "| "@ + if !alternate {
        "["@ + operations_debug_line(r.operations@, r.operations@.len() as int) + "]"@
    } else if r.operations@.len() == 0 {
        "[]"@
    } else {
        "[\n"@ + operations_debug_lines(r.operations@, r.operations@.len() as int) + "]"@
    }
}

/// The first `k` operations shown on one line, with `, ` between them.
pub open spec fn operations_debug_line(os: Seq<Operation>, k: int) -> Seq<char>
    decreases os, k,
{
    if k <= 0 || k > os.len() {
        Seq::empty()
    } else if k == 1 {
        operation_debug(os[0], false)
    } else {
        operations_debug_line(os, k - 1) + ", "@ + operation_debug(os[k - 1], false)
    }
}

/// The first `k` operations shown one per line, each indented and followed
/// by a comma.
pub open spec fn operations_debug_lines(os: Seq<Operation>, k: int) -> Seq<char>
    decreases os, k,
{
    if k <= 0 || k > os.len() {
        Seq::empty()
    } else {
        operations_debug_lines(os, k - 1) + padded(operation_debug(os[k - 1], true) + ",\n"@, true)
    }
}

fn append_padded(dst: &mut Vec<char>, s: &Vec<char>)
    ensures
        final(dst)@ == old(dst)@ + padded(s@, true),
{
    let ghost start = dst@;
    let mut at_line_start = true;
    let mut i: usize = 0;
    assert(s@.skip(0) =~= s@);
    while i < s.len()
        invariant
            i <= s.len(),
            start + padded(s@, true) == dst@ + padded(s@.skip(i as int), at_line_start),
        decreases s.len() - i,
    {
        let ghost rest = s@.skip(i as int);
        if at_line_start {
            append_str(dst, "    ");
        }
        dst.push(s[i]);
        at_line_start = s[i] == '\n';
        i = i + 1;
        proof {
            assert(rest.skip(1) =~= s@.skip(i as int));
            assert(rest[0] == s@[i - 1]);
            reveal_strlit("    ");
        }
    }
    assert(s@.skip(s.len() as int) =~= Seq::<char>::empty());
}

fn append_joined_values(dst: &mut Vec<char>, vs: &Vec<Value>)
    ensures
        final(dst)@ == old(dst)@ + ssa_values_text(vs@, ", "@),
{
    let mut parts: Vec<Vec<char>> = Vec::new();
    let mut i: usize = 0;
    while i < vs.len()
        invariant
            i <= vs.len(),
            views(parts@) == vs@.take(i as int).map_values(|v: Value| ssa_value_text(v)),
        decreases vs.len() - i,
    {
        let mut part: Vec<char> = Vec::new();
        vs[i].append_text(&mut part);
        let ghost before = parts@;
        parts.push(part);
        assert(views(parts@) =~= views(before).push(part@));
        i = i + 1;
        assert(views(parts@) =~= vs@.take(i as int).map_values(|v: Value| ssa_value_text(v)));
    }
    assert(vs@.take(vs.len() as int) =~= vs@);
    let text = join(&parts, ", ");
    append_chars(dst, &text);
}

impl Operation {
    fn append_outputs(&self, dst: &mut Vec<char>)
        ensures
            final(dst)@ == old(dst)@ + outputs_debug(self.id, self.num_outputs),
    {
        if self.num_outputs > 0 {
            let mut outputs: Vec<Value> = Vec::new();
            let mut k: usize = 0;
            while k < self.num_outputs
                invariant
                    k <= self.num_outputs,
                    outputs@ == values_of(self.id, k as nat),
                decreases self.num_outputs - k,
            {
                outputs.push(self.output(k));
                k = k + 1;
                assert(outputs@ =~= values_of(self.id, k as nat));
            }
            append_joined_values(dst, &outputs);
            append_str(dst, " = ");
        }
        assert(final(dst)@ =~= old(dst)@ + outputs_debug(self.id, self.num_outputs));
    }

    fn append_attributes(&self, dst: &mut Vec<char>)
        ensures
            final(dst)@ == old(dst)@ + attributes_debug(self.attributes@),
    {
        if self.attributes.len() > 0 {
            let mut parts: Vec<Vec<char>> = Vec::new();
            let mut i: usize = 0;
            while i < self.attributes.len()
                invariant
                    i <= self.attributes.len(),
                    views(parts@) == self.attributes@.take(i as int).map_values(|a: String| a@),
                decreases self.attributes.len() - i,
            {
                let part = str_chars(self.attributes[i].as_str());
                let ghost before = parts@;
                parts.push(part);
                assert(views(parts@) =~= views(before).push(part@));
                i = i + 1;
                assert(views(parts@) =~= self.attributes@.take(i as int).map_values(|a: String| a@));
            }
            assert(self.attributes@.take(self.attributes.len() as int) =~= self.attributes@);
            append_str(dst, "[");
            let text = join(&parts, ", ");
            append_chars(dst, &text);
            append_str(dst, "]");
        }
        assert(final(dst)@ =~= old(dst)@ + attributes_debug(self.attributes@));
    }

    fn append_inputs(&self, dst: &mut Vec<char>)
        ensures
            final(dst)@ == old(dst)@ + spaced_values_text(self.inputs@),
    {
        let ghost start = dst@;
        let mut i: usize = 0;
        while i < self.inputs.len()
            invariant
                i <= self.inputs.len(),
                dst@ == start + spaced_values_text(self.inputs@.take(i as int)),
            decreases self.inputs.len() - i,
        {
            dst.push(' ');
            self.inputs[i].append_text(dst);
            i = i + 1;
            assert(self.inputs@.take(i as int).drop_last() =~= self.inputs@.take(i - 1));
            assert(dst@ =~= start + spaced_values_text(self.inputs@.take(i as int)));
        }
        assert(self.inputs@.take(self.inputs.len() as int) =~= self.inputs@);
    }

    /// Appends how the operation is shown.
    #[verifier::spinoff_prover]
    #[verifier::rlimit(30)]
    pub fn append_debug(&self, alternate: bool, dst: &mut Vec<char>)
        ensures
            final(dst)@ == old(dst)@ + operation_debug(*self, alternate),
        decreases *self, 0int,
    {
        let ghost start = dst@;
        self.append_outputs(dst);
        append_str(dst, self.mnemonic.as_str());
        self.append_attributes(dst);
        self.append_inputs(dst);
        let ghost after_inputs = dst@;
        let mut j: usize = 0;
        while j < self.regions.len()
            invariant
                j <= self.regions.len(),
                dst@ == after_inputs + regions_debug(self.regions@, alternate, j as int),
            decreases self.regions.len() - j,
        {
            proof {
                assert(decreases_to!(*self => self.regions@[j as int]));
            }
            dst.push(' ');
            self.regions[j].append_debug(alternate, dst);
            j = j + 1;
            assert(dst@ =~= after_inputs + regions_debug(self.regions@, alternate, j as int));
        }
        proof {
            assert(dst@ =~= start + operation_debug(*self, alternate));
        }
    }

    /// How the operation is shown.
    pub fn describe(&self, alternate: bool) -> (r: String)
        ensures
            r@ == operation_debug(*self, alternate),
    {
        let mut v: Vec<char> = Vec::new();
        self.append_debug(alternate, &mut v);
        assert(v@ =~= operation_debug(*self, alternate));
        chars_to_string(&v)
    }
}

fn append_operations_line(os: &Vec<Operation>, dst: &mut Vec<char>)
    ensures
        final(dst)@ == old(dst)@ + operations_debug_line(os@, os@.len() as int),
    decreases os@, 1int,
{
    let ghost head = dst@;
    let mut i: usize = 0;
    while i < os.len()
        invariant
            i <= os.len(),
            dst@ == head + operations_debug_line(os@, i as int),
        decreases os.len() - i,
    {
        proof {
            assert(decreases_to!(os@ => os@[i as int]));
        }
        if i > 0 {
            append_str(dst, ", ");
        }
        os[i].append_debug(false, dst);
        i = i + 1;
        assert(dst@ =~= head + operations_debug_line(os@, i as int));
    }
}

fn append_operations_lines(os: &Vec<Operation>, dst: &mut Vec<char>)
    ensures
        final(dst)@ == old(dst)@ + operations_debug_lines(os@, os@.len() as int),
    decreases os@, 1int,
{
    let ghost head = dst@;
    let mut i: usize = 0;
    while i < os.len()
        invariant
            i <= os.len(),
            dst@ == head + operations_debug_lines(os@, i as int),
        decreases os.len() - i,
    {
        proof {
            assert(decreases_to!(os@ => os@[i as int]));
        }
        let mut entry: Vec<char> = Vec::new();
        os[i].append_debug(true, &mut entry);
        append_str(&mut entry, ",\n");
        append_padded(dst, &entry);
        i = i + 1;
        assert(dst@ =~= head + operations_debug_lines(os@, i as int));
    }
}

impl Region {
    /// Appends how the region is shown.
    pub fn append_debug(&self, alternate: bool, dst: &mut Vec<char>)
        ensures
            final(dst)@ == old(dst)@ + region_debug(*self, alternate),
        decreases *self, 0int,
    {
        let ghost start = dst@;
        append_str(dst, "|");
        append_joined_values(dst, &self.arguments);
        append_str(dst, "| ");
        let ghost head = dst@;
        if !alternate {
            append_str(dst, "[");
            append_operations_line(&self.operations, dst);
            append_str(dst, "]");
        } else if self.operations.len() == 0 {
            append_str(dst, "[]");
        } else {
            append_str(dst, "[\n");
            append_operations_lines(&self.operations, dst);
            append_str(dst, "]");
        }
        proof {
            assert(dst@ =~= start + region_debug(*self, alternate));
        }
    }

    /// How the region is shown.
    pub fn describe(&self, alternate: bool) -> (r: String)
        ensures
            r@ == region_debug(*self, alternate),
    {
        let mut v: Vec<char> = Vec::new();
        self.append_debug(alternate, &mut v);
        assert(v@ =~= region_debug(*self, alternate));
        chars_to_string(&v)
    }
}

//------------------------------------------------------------------------------
// Tokens of an operation listing.
//------------------------------------------------------------------------------

/// One token of an operation listing: separators, `|`, `[`, `]`, a symbol
/// (any other run of characters) or a value (`%` followed by its name).
#[derive(PartialEq, Eq, Debug)]
pub enum Token {
    Empty,
    Pipe,
    BracketOpen,
    BracketClose,
    Symbol(Vec<char>),
    Value(Vec<char>),
}

/// The mathematical form of a [`Token`].
pub enum TokenView {
    Empty,
    Pipe,
    BracketOpen,
    BracketClose,
    Symbol(Seq<char>),
    Value(Seq<char>),
}

impl View for Token {
    type V = TokenView;

    open spec fn view(&self) -> TokenView {
        match self {
            Token::Empty => TokenView::Empty,
            Token::Pipe => TokenView::Pipe,
            Token::BracketOpen => TokenView::BracketOpen,
            Token::BracketClose => TokenView::BracketClose,
            Token::Symbol(s) => TokenView::Symbol(s@),
            Token::Value(s) => TokenView::Value(s@),
        }
    }
}

/// The views of a sequence of tokens.
pub open spec fn tokens_view(ts: Seq<Token>) -> Seq<TokenView> {
    ts.map_values(|t: Token| t@)
}

/// Characters that only separate tokens.
pub open spec fn is_separator(c: char) -> bool {
    c == ' ' || c == '\t' || c == '\n' || c == ','
}

/// Whether a token still takes the characters that follow it.
pub open spec fn is_open(t: TokenView) -> bool {
    t is Symbol || t is Value
}

/// The tokens of `s`, separators included, read from left to right: a
/// separator gives `Empty`, `|`, `[` and `]` give their own token, `%` starts
/// a value, and any other character extends the symbol or value just before
/// it or else starts a new symbol.
pub open spec fn scanned(s: Seq<char>) -> Seq<TokenView>
    decreases s.len(),
{
    if s.len() == 0 {
        Seq::empty()
    } else {
        let prev = scanned(s.drop_last());
        let c = s.last();
        if is_separator(c) {
            prev.push(TokenView::Empty)
        } else if c == '|' {
            prev.push(TokenView::Pipe)
        } else if c == '[' {
            prev.push(TokenView::BracketOpen)
        } else if c == ']' {
            prev.push(TokenView::BracketClose)
        } else if c == '%' {
            prev.push(TokenView::Value(Seq::empty()))
        } else if prev.len() > 0 && prev.last() is Symbol {
            prev.update(prev.len() - 1, TokenView::Symbol(prev.last()->Symbol_0.push(c)))
        } else if prev.len() > 0 && prev.last() is Value {
            prev.update(prev.len() - 1, TokenView::Value(prev.last()->Value_0.push(c)))
        } else {
            prev.push(TokenView::Symbol(seq![c]))
        }
    }
}

/// Whether a token carries content (is not a separator).
pub open spec fn is_content(t: TokenView) -> bool {
    !(t is Empty)
}

/// The tokens of `s` without the separators.
pub open spec fn tokens_of(s: Seq<char>) -> Seq<TokenView> {
    scanned(s).filter(|t: TokenView| is_content(t))
}

proof fn lemma_filter_push(s: Seq<TokenView>, t: TokenView)
    ensures
        s.push(t).filter(|t: TokenView| is_content(t)) == (if is_content(t) {
            s.filter(|t: TokenView| is_content(t)).push(t)
        } else {
            s.filter(|t: TokenView| is_content(t))
        }),
{
    reveal(Seq::filter);
    assert(s.push(t).drop_last() =~= s);
}

proof fn lemma_filter_last(s: Seq<TokenView>, t: TokenView)
    requires
        s.len() > 0,
        is_content(s.last()),
        is_content(t),
    ensures
        s.filter(|t: TokenView| is_content(t)).len() > 0,
        s.filter(|t: TokenView| is_content(t)).last() == s.last(),
        s.update(s.len() - 1, t).filter(|t: TokenView| is_content(t)) == s.filter(
            |t: TokenView| is_content(t),
        ).update(s.filter(|t: TokenView| is_content(t)).len() - 1, t),
{
    reveal(Seq::filter);
    let u = s.update(s.len() - 1, t);
    assert(u.drop_last() =~= s.drop_last());
    let f = s.drop_last().filter(|t: TokenView| is_content(t));
    assert(f.push(t) =~= f.push(s.last()).update(f.len() as int, t));
}

/// Splits an operation listing into tokens; separators (space, tab, newline
/// and comma) only end the token before them.
pub fn tokenize(pattern: &str) -> (r: Result<Vec<Token>, String>)
    ensures
        r is Ok,
        r matches Ok(ts) && tokens_view(ts@) == tokens_of(pattern@),
{
    let chars = str_chars(pattern);
    let mut tokens: Vec<Token> = Vec::new();
    let mut open = false;
    let mut i: usize = 0;
    while i < chars.len()
        invariant
            i <= chars.len(),
            chars@ == pattern@,
            tokens_view(tokens@) == tokens_of(chars@.take(i as int)),
            open == (scanned(chars@.take(i as int)).len() > 0 && is_open(
                scanned(chars@.take(i as int)).last(),
            )),
            open ==> tokens@.len() > 0 && tokens@.last()@ == scanned(chars@.take(i as int)).last(),
        decreases chars.len() - i,
    {
        let ghost prev = scanned(chars@.take(i as int));
        let c = chars[i];
        proof {
            assert(chars@.take(i + 1).drop_last() =~= chars@.take(i as int));
            assert(chars@.take(i + 1).last() == c);
        }
        let ghost before = tokens@;
        if c == ' ' || c == '\t' || c == '\n' || c == ',' {
            proof {
                lemma_filter_push(prev, TokenView::Empty);
            }
            open = false;
        } else if c == '|' {
            tokens.push(Token::Pipe);
            proof {
                lemma_filter_push(prev, TokenView::Pipe);
                assert(tokens_view(tokens@) =~= tokens_view(before).push(TokenView::Pipe));
            }
            open = false;
        } else if c == '[' {
            tokens.push(Token::BracketOpen);
            proof {
                lemma_filter_push(prev, TokenView::BracketOpen);
                assert(tokens_view(tokens@) =~= tokens_view(before).push(TokenView::BracketOpen));
            }
            open = false;
        } else if c == ']' {
            tokens.push(Token::BracketClose);
            proof {
                lemma_filter_push(prev, TokenView::BracketClose);
                assert(tokens_view(tokens@) =~= tokens_view(before).push(TokenView::BracketClose));
            }
            open = false;
        } else if c == '%' {
            tokens.push(Token::Value(Vec::new()));
            proof {
                lemma_filter_push(prev, TokenView::Value(Seq::empty()));
                assert(tokens_view(tokens@) =~= tokens_view(before).push(
                    TokenView::Value(Seq::empty()),
                ));
            }
            open = true;
        } else if open {
            let last = tokens.pop().unwrap();
            let ghost popped = tokens@;
            match last {
                Token::Symbol(mut s) => {
                    s.push(c);
                    let ghost t = TokenView::Symbol(s@);
                    tokens.push(Token::Symbol(s));
                    proof {
                        lemma_filter_last(prev, t);
                        assert(tokens_view(tokens@) =~= tokens_view(before).update(
                            before.len() - 1,
                            t,
                        ));
                    }
                },
                Token::Value(mut s) => {
                    s.push(c);
                    let ghost t = TokenView::Value(s@);
                    tokens.push(Token::Value(s));
                    proof {
                        lemma_filter_last(prev, t);
                        assert(tokens_view(tokens@) =~= tokens_view(before).update(
                            before.len() - 1,
                            t,
                        ));
                    }
                },
                _ => {
                    proof {
                        assert(false);
                    }
                    tokens.push(last);
                },
            }
        } else {
            let mut s: Vec<char> = Vec::new();
            s.push(c);
            let ghost t = TokenView::Symbol(s@);
            tokens.push(Token::Symbol(s));
            proof {
                assert(s@ =~= seq![c]);
                lemma_filter_push(prev, t);
                assert(tokens_view(tokens@) =~= tokens_view(before).push(t));
            }
            open = true;
        }
        i = i + 1;
    }
    assert(chars@.take(chars.len() as int) =~= chars@);
    Ok(tokens)
}

//------------------------------------------------------------------------------
// Rendering of tokens.
//------------------------------------------------------------------------------

/// The text of a token as the matcher's messages show it.
pub open spec fn token_text(t: TokenView) -> Seq<char> {
    match t {
        TokenView::Empty => Seq::empty(),
        TokenView::Pipe => seq!['|'],
        TokenView::BracketOpen => seq!['['],
        TokenView::BracketClose => seq![']'],
        TokenView::Symbol(s) => s,
        TokenView::Value(s) => seq!['%'] + s,
    }
}

/// The text of a token.
pub fn token_to_text(t: &Token) -> (r: Vec<char>)
    ensures
        r@ == token_text(t@),
{
    let mut r: Vec<char> = Vec::new();
    match t {
        Token::Empty => {},
        Token::Pipe => r.push('|'),
        Token::BracketOpen => r.push('['),
        Token::BracketClose => r.push(']'),
        Token::Symbol(s) => append_chars(&mut r, s),
        Token::Value(s) => {
            r.push('%');
            append_chars(&mut r, s);
        },
    }
    proof {
        match t {
            Token::Empty => assert(r@ =~= token_text(t@)),
            Token::Pipe => assert(r@ =~= token_text(t@)),
            Token::BracketOpen => assert(r@ =~= token_text(t@)),
            Token::BracketClose => assert(r@ =~= token_text(t@)),
            Token::Symbol(s) => assert(r@ =~= token_text(t@)),
            Token::Value(s) => assert(r@ =~= token_text(t@)),
        }
    }
    r
}

/// The texts of `ts[lo..hi]`, each two separated by one space.
pub open spec fn section(ts: Seq<TokenView>, lo: int, hi: int) -> Seq<char> {
    joined(ts.subrange(lo, hi).map_values(|t: TokenView| token_text(t)), seq![' '])
}

fn section_text(ts: &Vec<Token>, lo: usize, hi: usize) -> (r: Vec<char>)
    requires
        lo <= hi <= ts.len(),
    ensures
        r@ == section(tokens_view(ts@), lo as int, hi as int),
{
    let mut parts: Vec<Vec<char>> = Vec::new();
    let mut i: usize = lo;
    while i < hi
        invariant
            lo <= i <= hi <= ts.len(),
            views(parts@) == tokens_view(ts@).subrange(lo as int, i as int).map_values(
                |t: TokenView| token_text(t),
            ),
        decreases hi - i,
    {
        let part = token_to_text(&ts[i]);
        assert(tokens_view(ts@)[i as int] == ts@[i as int]@);
        let ghost before = parts@;
        parts.push(part);
        assert(views(parts@) =~= views(before).push(part@));
        i = i + 1;
        assert(views(parts@) =~= tokens_view(ts@).subrange(lo as int, i as int).map_values(
            |t: TokenView| token_text(t),
        ));
    }
    proof {
        reveal_strlit(" ");
        assert(" "@ =~= seq![' ']);
    }
    join(&parts, " ")
}

/// Appends, for each character of `s`, as many copies of `fill` as UTF-8
/// takes bytes for it.
fn append_byte_fill(dst: &mut Vec<char>, s: &Vec<char>, fill: char)
    ensures
        final(dst)@ == old(dst)@ + repeated(fill, utf8_len(s@)),
{
    let mut i: usize = 0;
    while i < s.len()
        invariant
            i <= s.len(),
            dst@ == old(dst)@ + repeated(fill, utf8_len(s@.take(i as int))),
        decreases s.len() - i,
    {
        let c = s[i];
        let w: usize = if (c as u32) < 0x80 {
            1
        } else if (c as u32) < 0x800 {
            2
        } else if (c as u32) < 0x10000 {
            3
        } else {
            4
        };
        assert(w == utf8_width(c));
        let ghost before = dst@;
        append_repeated(dst, fill, w);
        i = i + 1;
        proof {
            assert(s@.take(i as int).drop_last() =~= s@.take(i - 1));
            let a = utf8_len(s@.take(i - 1));
            assert(repeated(fill, a + (w as nat)) =~= repeated(fill, a) + repeated(fill, w as nat));
        }
    }
    assert(s@.take(s.len() as int) =~= s@);
}

//------------------------------------------------------------------------------
// Matching an operation listing against a pattern.
//------------------------------------------------------------------------------

/// Two tokens at the same place agree, up to the names of values.
pub open spec fn compatible(o: TokenView, p: TokenView) -> bool {
    match (o, p) {
        (TokenView::Empty, TokenView::Empty) => true,
        (TokenView::Pipe, TokenView::Pipe) => true,
        (TokenView::BracketOpen, TokenView::BracketOpen) => true,
        (TokenView::BracketClose, TokenView::BracketClose) => true,
        (TokenView::Symbol(a), TokenView::Symbol(b)) => a == b,
        (TokenView::Value(_), TokenView::Value(_)) => true,
        _ => false,
    }
}

/// The first `n` tokens of `ops` are those of `pats` with the value names
/// renamed one to one: tokens agree place by place, and two places hold the
/// same value name in `ops` exactly when they do in `pats`.
pub open spec fn renaming_ok(ops: Seq<TokenView>, pats: Seq<TokenView>, n: int) -> bool {
    &&& forall|i: int| 0 <= i < n ==> compatible(#[trigger] ops[i], pats[i])
    &&& forall|i: int, j: int|
        0 <= i < n && 0 <= j < n && ops[i] is Value && ops[j] is Value && pats[i] is Value
            && pats[j] is Value ==> (#[trigger] ops[i]->Value_0 == #[trigger] ops[j]->Value_0
            <==> pats[i]->Value_0 == pats[j]->Value_0)
}

/// `k` is the place where the renaming first breaks.
pub open spec fn mismatch_at(ops: Seq<TokenView>, pats: Seq<TokenView>, k: int) -> bool {
    &&& 0 <= k < ops.len()
    &&& k < pats.len()
    &&& renaming_ok(ops, pats, k)
    &&& !renaming_ok(ops, pats, k + 1)
}

/// The first place before `k` where `ts` holds the value `name`, or -1.
pub open spec fn first_value_index(ts: Seq<TokenView>, name: Seq<char>, k: int) -> int
    decreases k,
{
    if k <= 0 {
        -1
    } else {
        let f = first_value_index(ts, name, k - 1);
        if f >= 0 {
            f
        } else if ts[k - 1] == TokenView::Value(name) {
            k - 1
        } else {
            -1
        }
    }
}

/// The token that the pattern asks for at the mismatch `k`: for two values,
/// the operation's value that the pattern's value was first matched with
/// (or the pattern's value itself when it has not been seen); otherwise the
/// pattern's token.
pub open spec fn expected_token(ops: Seq<TokenView>, pats: Seq<TokenView>, k: int) -> TokenView {
    if ops[k] is Value && pats[k] is Value {
        let p = pats[k]->Value_0;
        let j = first_value_index(pats, p, k);
        if j >= 0 {
            TokenView::Value(ops[j]->Value_0)
        } else {
            TokenView::Value(p)
        }
    } else {
        pats[k]
    }
}

/// The diagnostic for a mismatch at `k`: up to six tokens of context before
/// it, the expected and the found token with up to five tokens after each,
/// and a caret line under the found token.
pub open spec fn mismatch_message(ops: Seq<TokenView>, pats: Seq<TokenView>, k: int) -> Seq<
    char,
> {
    let start = if k < 6 {
        0
    } else {
        k - 6
    };
    let ms = section(ops, start, k);
    let fp = section(
        pats,
        k + 1,
        if pats.len() < k + 6 {
            pats.len() as int
        } else {
            k + 6
        },
    );
    let fo = section(
        ops,
        k + 1,
        if ops.len() < k + 6 {
            ops.len() as int
        } else {
            k + 6
        },
    );
    let found = token_text(ops[k]);
    "operation does not match pattern:\n   expected: "@ + ms + " "@ + token_text(
        expected_token(ops, pats, k),
    ) + " "@ + fp + "\n   found:    "@ + ms + " "@ + found + " "@ + fo + "\n             "@
        + repeated(' ', utf8_len(ms)) + " "@ + repeated('^', utf8_len(found))
}

/// The diagnostic for listings that agree as far as the shorter one goes.
pub open spec fn length_message(op: Seq<char>, pat: Seq<char>) -> Seq<char> {
    "operation differs from pattern in length\noperation:\n"@ + op + "\npattern:\n"@ + pat
}

/// What matching `op` against `pat` gives: the first place where the
/// renaming breaks is reported; otherwise listings of different length are
/// reported; otherwise they match.
pub open spec fn match_outcome(op: Seq<char>, pat: Seq<char>) -> Result<(), Seq<char>> {
    let ops = tokens_of(op);
    let pats = tokens_of(pat);
    let n = if ops.len() < pats.len() {
        ops.len() as int
    } else {
        pats.len() as int
    };
    if !renaming_ok(ops, pats, n) {
        Err(mismatch_message(ops, pats, choose|k: int| mismatch_at(ops, pats, k)))
    } else if ops.len() != pats.len() {
        Err(length_message(op, pat))
    } else {
        Ok(())
    }
}

proof fn lemma_renaming_ok_shrinks(ops: Seq<TokenView>, pats: Seq<TokenView>, n: int, m: int)
    requires
        0 <= m <= n,
        renaming_ok(ops, pats, n),
    ensures
        renaming_ok(ops, pats, m),
{
}

proof fn lemma_mismatch_unique(ops: Seq<TokenView>, pats: Seq<TokenView>, k: int, l: int)
    requires
        mismatch_at(ops, pats, k),
        mismatch_at(ops, pats, l),
    ensures
        k == l,
{
    if k < l {
        lemma_renaming_ok_shrinks(ops, pats, l, k + 1);
    } else if l < k {
        lemma_renaming_ok_shrinks(ops, pats, k, l + 1);
    }
}

fn is_value(t: &Token) -> (r: bool)
    ensures
        r == (t@ is Value),
{
    match t {
        Token::Value(_) => true,
        _ => false,
    }
}

fn value_name(t: &Token) -> (r: &Vec<char>)
    requires
        t@ is Value,
    ensures
        r@ == t@->Value_0,
{
    match t {
        Token::Value(s) => s,
        _ => vstd::pervasive::unreached(),
    }
}

fn tokens_compatible(o: &Token, p: &Token) -> (r: bool)
    ensures
        r == compatible(o@, p@),
{
    match (o, p) {
        (Token::Empty, Token::Empty) => true,
        (Token::Pipe, Token::Pipe) => true,
        (Token::BracketOpen, Token::BracketOpen) => true,
        (Token::BracketClose, Token::BracketClose) => true,
        (Token::Symbol(a), Token::Symbol(b)) => crate::text::chars_equal(a, b),
        (Token::Value(_), Token::Value(_)) => true,
        _ => false,
    }
}

/// Checks place `k` against all places before it, given that those agree.
fn extends_renaming(ops: &Vec<Token>, pats: &Vec<Token>, k: usize) -> (r: bool)
    requires
        k < ops.len(),
        k < pats.len(),
        renaming_ok(tokens_view(ops@), tokens_view(pats@), k as int),
    ensures
        r == renaming_ok(tokens_view(ops@), tokens_view(pats@), k + 1),
{
    let ghost o = tokens_view(ops@);
    let ghost p = tokens_view(pats@);
    assert(o[k as int] == ops@[k as int]@);
    assert(p[k as int] == pats@[k as int]@);
    if !tokens_compatible(&ops[k], &pats[k]) {
        return false;
    }
    if !is_value(&ops[k]) {
        assert(renaming_ok(o, p, k + 1));
        return true;
    }
    let on = value_name(&ops[k]);
    let pn = value_name(&pats[k]);
    let mut i: usize = 0;
    while i < k
        invariant
            k < ops.len(),
            k < pats.len(),
            o == tokens_view(ops@),
            p == tokens_view(pats@),
            renaming_ok(o, p, k as int),
            compatible(o[k as int], p[k as int]),
            o[k as int] is Value,
            on@ == o[k as int]->Value_0,
            pn@ == p[k as int]->Value_0,
            i <= k,
            forall|j: int|
                0 <= j < i && o[j] is Value ==> (o[j]->Value_0 == on@ <==> p[j]->Value_0
                    == pn@),
        decreases k - i,
    {
        assert(o[i as int] == ops@[i as int]@);
        assert(p[i as int] == pats@[i as int]@);
        assert(compatible(o[i as int], p[i as int]));
        if is_value(&ops[i]) {
            let a = crate::text::chars_equal(value_name(&ops[i]), on);
            let b = crate::text::chars_equal(value_name(&pats[i]), pn);
            if a != b {
                assert(!renaming_ok(o, p, k + 1)) by {
                    assert(o[i as int] is Value && o[k as int] is Value);
                }
                return false;
            }
        }
        i = i + 1;
    }
    assert(renaming_ok(o, p, k + 1));
    true
}

fn expected_at(ops: &Vec<Token>, pats: &Vec<Token>, k: usize) -> (r: Vec<char>)
    requires
        k < ops.len(),
        k < pats.len(),
        renaming_ok(tokens_view(ops@), tokens_view(pats@), k as int),
    ensures
        r@ == token_text(expected_token(tokens_view(ops@), tokens_view(pats@), k as int)),
{
    let ghost o = tokens_view(ops@);
    let ghost p = tokens_view(pats@);
    assert(o[k as int] == ops@[k as int]@);
    assert(p[k as int] == pats@[k as int]@);
    if !(is_value(&ops[k]) && is_value(&pats[k])) {
        return token_to_text(&pats[k]);
    }
    let pn = value_name(&pats[k]);
    let mut j: usize = 0;
    while j < k
        invariant
            k < ops.len(),
            k < pats.len(),
            o == tokens_view(ops@),
            p == tokens_view(pats@),
            renaming_ok(o, p, k as int),
            pn@ == p[k as int]->Value_0,
            o[k as int] is Value,
            p[k as int] is Value,
            j <= k,
            first_value_index(p, pn@, j as int) == -1,
        decreases k - j,
    {
        assert(p[j as int] == pats@[j as int]@);
        assert(o[j as int] == ops@[j as int]@);
        if is_value(&pats[j]) && crate::text::chars_equal(value_name(&pats[j]), pn) {
            assert(p[j as int] == TokenView::Value(pn@));
            assert(first_value_index(p, pn@, j + 1) == j);
            proof {
                lemma_first_value_index_stays(p, pn@, j + 1, k as int);
                assert(compatible(o[j as int], p[j as int]));
            }
            let mut r: Vec<char> = Vec::new();
            r.push('%');
            append_chars(&mut r, value_name(&ops[j]));
            assert(first_value_index(p, pn@, k as int) == j);
            assert(expected_token(o, p, k as int) == TokenView::Value(o[j as int]->Value_0));
            assert(r@ =~= seq!['%'] + o[j as int]->Value_0);
            assert(r@ =~= token_text(expected_token(o, p, k as int)));
            return r;
        }
        j = j + 1;
    }
    let mut r: Vec<char> = Vec::new();
    r.push('%');
    append_chars(&mut r, pn);
    assert(r@ =~= token_text(expected_token(o, p, k as int)));
    r
}

proof fn lemma_first_value_index_stays(ts: Seq<TokenView>, name: Seq<char>, a: int, b: int)
    requires
        0 <= a <= b,
        first_value_index(ts, name, a) >= 0,
    ensures
        first_value_index(ts, name, b) == first_value_index(ts, name, a),
    decreases b - a,
{
    if a < b {
        lemma_first_value_index_stays(ts, name, a, b - 1);
    }
}

fn mismatch_text(ops: &Vec<Token>, pats: &Vec<Token>, k: usize) -> (r: Vec<char>)
    requires
        k < ops.len(),
        k < pats.len(),
        renaming_ok(tokens_view(ops@), tokens_view(pats@), k as int),
    ensures
        r@ == mismatch_message(tokens_view(ops@), tokens_view(pats@), k as int),
{
    let start: usize = if k < 6 {
        0
    } else {
        k - 6
    };
    let pat_end: usize = if pats.len() - k < 6 {
        pats.len()
    } else {
        k + 6
    };
    let op_end: usize = if ops.len() - k < 6 {
        ops.len()
    } else {
        k + 6
    };
    let ms = section_text(ops, start, k);
    let fp = section_text(pats, k + 1, pat_end);
    let fo = section_text(ops, k + 1, op_end);
    let found = token_to_text(&ops[k]);
    assert(tokens_view(ops@)[k as int] == ops@[k as int]@);
    let expected = expected_at(ops, pats, k);
    let mut r: Vec<char> = Vec::new();
    append_str(&mut r, "operation does not match pattern:\n   expected: ");
    append_chars(&mut r, &ms);
    append_str(&mut r, " ");
    append_chars(&mut r, &expected);
    append_str(&mut r, " ");
    append_chars(&mut r, &fp);
    append_str(&mut r, "\n   found:    ");
    append_chars(&mut r, &ms);
    append_str(&mut r, " ");
    append_chars(&mut r, &found);
    append_str(&mut r, " ");
    append_chars(&mut r, &fo);
    append_str(&mut r, "\n             ");
    append_byte_fill(&mut r, &ms, ' ');
    append_str(&mut r, " ");
    append_byte_fill(&mut r, &found, '^');
    r
}

/// Matches an operation listing against a pattern in which value names may
/// differ from the listing's as long as they are renamed one to one.
pub fn matches(operation: &str, pattern: &str) -> (r: Result<(), String>)
    ensures
        match r {
            Ok(()) => match_outcome(operation@, pattern@) is Ok,
            Err(m) => match_outcome(operation@, pattern@) == Err::<(), Seq<char>>(m@),
        },
{
    let op_tokens = tokenize(operation).unwrap();
    let pat_tokens = tokenize(pattern).unwrap();
    let ghost o = tokens_view(op_tokens@);
    let ghost p = tokens_view(pat_tokens@);
    let n: usize = if op_tokens.len() < pat_tokens.len() {
        op_tokens.len()
    } else {
        pat_tokens.len()
    };
    let mut k: usize = 0;
    while k < n
        invariant
            o == tokens_view(op_tokens@),
            p == tokens_view(pat_tokens@),
            o == tokens_of(operation@),
            p == tokens_of(pattern@),
            n <= op_tokens.len(),
            n <= pat_tokens.len(),
            n == op_tokens.len() || n == pat_tokens.len(),
            k <= n,
            renaming_ok(o, p, k as int),
        decreases n - k,
    {
        if !extends_renaming(&op_tokens, &pat_tokens, k) {
            let message = mismatch_text(&op_tokens, &pat_tokens, k);
            proof {
                assert(mismatch_at(o, p, k as int));
                if renaming_ok(o, p, n as int) {
                    lemma_renaming_ok_shrinks(o, p, n as int, k + 1);
                }
                let c = choose|c: int| mismatch_at(o, p, c);
                lemma_mismatch_unique(o, p, k as int, c);
            }
            return Err(chars_to_string(&message));
        }
        k = k + 1;
    }
    if op_tokens.len() != pat_tokens.len() {
        let mut message: Vec<char> = Vec::new();
        append_str(&mut message, "operation differs from pattern in length\noperation:\n");
        append_str(&mut message, operation);
        append_str(&mut message, "\npattern:\n");
        append_str(&mut message, pattern);
        return Err(chars_to_string(&message));
    }
    Ok(())
}

/// Every listing matches itself.
pub proof fn lemma_matches_reflexive(listing: Seq<char>)
    ensures
        match_outcome(listing, listing) is Ok,
{
    let t = tokens_of(listing);
    assert(renaming_ok(t, t, t.len() as int));
}

/// Matching succeeds in one direction exactly when it succeeds in the other:
/// a one-to-one renaming of values can be undone.
pub proof fn lemma_matches_symmetric(operation: Seq<char>, pattern: Seq<char>)
    ensures
        match_outcome(operation, pattern) is Ok <==> match_outcome(pattern, operation) is Ok,
{
    let o = tokens_of(operation);
    let p = tokens_of(pattern);
    let n = if o.len() < p.len() {
        o.len() as int
    } else {
        p.len() as int
    };
    assert(renaming_ok(o, p, n) <==> renaming_ok(p, o, n)) by {
        if renaming_ok(o, p, n) {
            assert forall|i: int| 0 <= i < n implies compatible(#[trigger] p[i], o[i]) by {
                assert(compatible(o[i], p[i]));
            }
        }
        if renaming_ok(p, o, n) {
            assert forall|i: int| 0 <= i < n implies compatible(#[trigger] o[i], p[i]) by {
                assert(compatible(p[i], o[i]));
            }
        }
    }
}

/// A listing that matches a second one, which matches a third, matches the
/// third: one-to-one renamings of values compose.
pub proof fn lemma_matches_transitive(a: Seq<char>, b: Seq<char>, c: Seq<char>)
    requires
        match_outcome(a, b) is Ok,
        match_outcome(b, c) is Ok,
    ensures
        match_outcome(a, c) is Ok,
{
    let x = tokens_of(a);
    let y = tokens_of(b);
    let z = tokens_of(c);
    let n = x.len() as int;
    assert(renaming_ok(x, y, n));
    assert(renaming_ok(y, z, n));
    assert forall|i: int| 0 <= i < n implies compatible(#[trigger] x[i], z[i]) by {
        assert(compatible(x[i], y[i]));
        assert(compatible(y[i], z[i]));
    }
    assert forall|i: int, j: int|
        0 <= i < n && 0 <= j < n && x[i] is Value && x[j] is Value && z[i] is Value && z[j] is Value
            implies (#[trigger] x[i]->Value_0 == #[trigger] x[j]->Value_0 <==> z[i]->Value_0 == z[j]->Value_0) by {
        assert(compatible(x[i], y[i]));
        assert(compatible(x[j], y[j]));
        assert(y[i] is Value && y[j] is Value);
        assert(x[i]->Value_0 == x[j]->Value_0 <==> y[i]->Value_0 == y[j]->Value_0);
        assert(y[i]->Value_0 == y[j]->Value_0 <==> z[i]->Value_0 == z[j]->Value_0);
    }
    assert(renaming_ok(x, z, n));
}


/// `f` renames the value names of `pats` into `ops`, place by place: every
/// value `%n` of `pats` stands as `%f(n)` in `ops`, every other token is the
/// same, and `f` maps no two names of `pats` to one name.
pub open spec fn renames_into(ops: Seq<TokenView>, pats: Seq<TokenView>, f: spec_fn(Seq<char>) -> Seq<char>) -> bool {
    &&& ops.len() == pats.len()
    &&& forall|i: int| 0 <= i < pats.len() ==> #[trigger] ops[i] == (if pats[i] is Value {
        TokenView::Value(f(pats[i]->Value_0))
    } else {
        pats[i]
    })
    &&& forall|i: int, j: int|
        0 <= i < pats.len() && 0 <= j < pats.len() && pats[i] is Value && pats[j] is Value
            && f(#[trigger] pats[i]->Value_0) == f(#[trigger] pats[j]->Value_0)
            ==> pats[i]->Value_0 == pats[j]->Value_0
}

proof fn lemma_tokens_have_content(s: Seq<char>)
    ensures
        forall|i: int| 0 <= i < tokens_of(s).len() ==> is_content(#[trigger] tokens_of(s)[i]),
{
    assert forall|i: int| 0 <= i < tokens_of(s).len() implies is_content(#[trigger] tokens_of(s)[i]) by {
        scanned(s).lemma_filter_pred(|t: TokenView| is_content(t), i);
    }
}

/// A listing matches a pattern exactly when the pattern's value names can
/// be renamed one to one, place by place, into the listing's.
pub proof fn lemma_matches_iff_renaming(operation: Seq<char>, pattern: Seq<char>)
    ensures
        match_outcome(operation, pattern) is Ok <==> exists|f: spec_fn(Seq<char>) -> Seq<char>|
            renames_into(tokens_of(operation), tokens_of(pattern), f),
{
    let o = tokens_of(operation);
    let p = tokens_of(pattern);
    lemma_tokens_have_content(operation);
    lemma_tokens_have_content(pattern);
    if match_outcome(operation, pattern) is Ok {
        let n = p.len() as int;
        assert(o.len() == p.len());
        assert(renaming_ok(o, p, n));
        let f = |name: Seq<char>| {
            let k = choose|k: int| 0 <= k < n && p[k] is Value && p[k]->Value_0 == name;
            o[k]->Value_0
        };
        assert forall|i: int| 0 <= i < p.len() implies #[trigger] o[i] == (if p[i] is Value {
            TokenView::Value(f(p[i]->Value_0))
        } else {
            p[i]
        }) by {
            assert(compatible(o[i], p[i]));
            assert(is_content(p[i]));
            if p[i] is Value {
                let k = choose|k: int| 0 <= k < n && p[k] is Value && p[k]->Value_0 == p[i]->Value_0;
                assert(0 <= k < n && p[k] is Value && p[k]->Value_0 == p[i]->Value_0);
                assert(compatible(o[k], p[k]));
                assert(o[i]->Value_0 == o[k]->Value_0);
            }
        }
        assert forall|i: int, j: int|
            0 <= i < p.len() && 0 <= j < p.len() && p[i] is Value && p[j] is Value
                && f(#[trigger] p[i]->Value_0) == f(#[trigger] p[j]->Value_0)
                implies p[i]->Value_0 == p[j]->Value_0 by {
            let ki = choose|k: int| 0 <= k < n && p[k] is Value && p[k]->Value_0 == p[i]->Value_0;
            let kj = choose|k: int| 0 <= k < n && p[k] is Value && p[k]->Value_0 == p[j]->Value_0;
            assert(0 <= ki < n && p[ki] is Value && p[ki]->Value_0 == p[i]->Value_0);
            assert(0 <= kj < n && p[kj] is Value && p[kj]->Value_0 == p[j]->Value_0);
            assert(compatible(o[ki], p[ki]));
            assert(compatible(o[kj], p[kj]));
            assert(o[ki]->Value_0 == o[kj]->Value_0);
        }
        assert(renames_into(o, p, f));
    }
    if exists|f: spec_fn(Seq<char>) -> Seq<char>| renames_into(o, p, f) {
        let f = choose|f: spec_fn(Seq<char>) -> Seq<char>| renames_into(o, p, f);
        let n = p.len() as int;
        assert forall|i: int| 0 <= i < n implies compatible(#[trigger] o[i], p[i]) by {
            assert(o[i] == (if p[i] is Value {
                TokenView::Value(f(p[i]->Value_0))
            } else {
                p[i]
            }));
            assert(is_content(p[i]));
        }
        assert forall|i: int, j: int|
            0 <= i < n && 0 <= j < n && o[i] is Value && o[j] is Value && p[i] is Value && p[j] is Value
                implies (#[trigger] o[i]->Value_0 == #[trigger] o[j]->Value_0 <==> p[i]->Value_0
                == p[j]->Value_0) by {
            assert(o[i] == TokenView::Value(f(p[i]->Value_0)));
            assert(o[j] == TokenView::Value(f(p[j]->Value_0)));
        }
        assert(renaming_ok(o, p, n));
    }
}


//------------------------------------------------------------------------------
// Reading back the text of tokens.
//------------------------------------------------------------------------------

/// Characters that end a token or make one of their own.
pub open spec fn is_special(c: char) -> bool {
    is_separator(c) || c == '|' || c == '[' || c == ']' || c == '%'
}

/// Text without special characters.
pub open spec fn is_plain_text(s: Seq<char>) -> bool {
    forall|i: int| 0 <= i < s.len() ==> !is_special(#[trigger] s[i])
}

/// A token that the tokenizer gives: no separator, no empty symbol, and no
/// special character in a symbol or a value name.
pub open spec fn well_formed_token(t: TokenView) -> bool {
    match t {
        TokenView::Empty => false,
        TokenView::Symbol(s) => s.len() > 0 && is_plain_text(s),
        TokenView::Value(s) => is_plain_text(s),
        _ => true,
    }
}

/// The texts of the tokens, joined by spaces.
pub open spec fn tokens_text(ts: Seq<TokenView>) -> Seq<char>
    decreases ts.len(),
{
    if ts.len() == 0 {
        Seq::empty()
    } else if ts.len() == 1 {
        token_text(ts[0])
    } else {
        tokens_text(ts.drop_last()) + seq![' '] + token_text(ts.last())
    }
}

proof fn lemma_scanned_shape(s: Seq<char>)
    ensures
        s.len() > 0 ==> scanned(s).len() > 0,
        forall|i: int|
            0 <= i < scanned(s).len() ==> #[trigger] scanned(s)[i] is Empty || well_formed_token(
                scanned(s)[i],
            ),
    decreases s.len(),
{
    if s.len() > 0 {
        lemma_scanned_shape(s.drop_last());
        let prev = scanned(s.drop_last());
        let c = s.last();
        let cur = scanned(s);
        assert forall|i: int| 0 <= i < cur.len() implies #[trigger] cur[i] is Empty || well_formed_token(cur[i]) by {
            if i < prev.len() && !(i == prev.len() - 1 && !is_special(c) && prev.len() > 0 && is_open(prev.last())) {
                assert(cur[i] == prev[i]);
            } else if !is_special(c) && prev.len() > 0 && prev.last() is Symbol {
                let t = prev.last()->Symbol_0;
                assert(well_formed_token(prev[prev.len() - 1]));
                assert forall|j: int| 0 <= j < t.push(c).len() implies !is_special(#[trigger] t.push(c)[j]) by {
                    if j < t.len() {
                        assert(t.push(c)[j] == t[j]);
                    }
                }
            } else if !is_special(c) && prev.len() > 0 && prev.last() is Value {
                let t = prev.last()->Value_0;
                assert(well_formed_token(prev[prev.len() - 1]));
                assert forall|j: int| 0 <= j < t.push(c).len() implies !is_special(#[trigger] t.push(c)[j]) by {
                    if j < t.len() {
                        assert(t.push(c)[j] == t[j]);
                    }
                }
            } else if c == '%' {
                assert(is_plain_text(Seq::<char>::empty()));
            } else if !is_special(c) {
                assert(is_plain_text(seq![c]));
            }
        }
    }
}

/// Text that starts a token of its own scans on its own.
proof fn lemma_scanned_concat(x: Seq<char>, y: Seq<char>)
    requires
        y.len() > 0,
        is_special(y[0]) || scanned(x).len() == 0 || !is_open(scanned(x).last()),
    ensures
        scanned(x + y) == scanned(x) + scanned(y),
    decreases y.len(),
{
    let a = scanned(x);
    if y.len() == 1 {
        assert((x + y).drop_last() =~= x);
        assert(y.drop_last() =~= Seq::<char>::empty());
        assert((x + y).last() == y[0]);
        assert(scanned(x + y) =~= a + scanned(y));
    } else {
        let y0 = y.drop_last();
        assert(y0[0] == y[0]);
        lemma_scanned_concat(x, y0);
        lemma_scanned_shape(y0);
        assert((x + y).drop_last() =~= x + y0);
        assert((x + y).last() == y.last());
        let b = scanned(y0);
        assert((a + b).last() == b.last());
        assert((a + b).len() > 0);
        let c = y.last();
        if is_special(c) {
            assert(scanned(x + y) =~= a + scanned(y));
        } else if b.last() is Symbol {
            let t = TokenView::Symbol(b.last()->Symbol_0.push(c));
            assert((a + b).update((a + b).len() - 1, t) =~= a + b.update(b.len() - 1, t));
        } else if b.last() is Value {
            let t = TokenView::Value(b.last()->Value_0.push(c));
            assert((a + b).update((a + b).len() - 1, t) =~= a + b.update(b.len() - 1, t));
        } else {
            assert((a + b).push(TokenView::Symbol(seq![c])) =~= a + b.push(TokenView::Symbol(seq![c])));
        }
    }
}

proof fn lemma_scanned_plain(s: Seq<char>)
    requires
        s.len() > 0,
        is_plain_text(s),
    ensures
        scanned(s) == seq![TokenView::Symbol(s)],
    decreases s.len(),
{
    let c = s.last();
    assert(!is_special(s[s.len() - 1]));
    if s.len() == 1 {
        assert(s.drop_last() =~= Seq::<char>::empty());
        assert(scanned(Seq::<char>::empty()) == Seq::<TokenView>::empty());
        assert(seq![c] =~= s);
        assert(scanned(s) == Seq::<TokenView>::empty().push(TokenView::Symbol(seq![c])));
        assert(Seq::<TokenView>::empty().push(TokenView::Symbol(seq![c])) =~= seq![TokenView::Symbol(s)]);
    } else {
        let r = s.drop_last();
        assert forall|i: int| 0 <= i < r.len() implies !is_special(#[trigger] r[i]) by {
            assert(r[i] == s[i]);
        }
        lemma_scanned_plain(r);
        let prev = scanned(r);
        assert(prev.last() == TokenView::Symbol(r));
        assert(r.push(c) =~= s);
        assert(scanned(s) == prev.update(0, TokenView::Symbol(r.push(c))));
        assert(prev.update(0, TokenView::Symbol(s)) =~= seq![TokenView::Symbol(s)]);
    }
}

proof fn lemma_scanned_value(s: Seq<char>)
    requires
        is_plain_text(s),
    ensures
        scanned(seq!['%'] + s) == seq![TokenView::Value(s)],
    decreases s.len(),
{
    let w = seq!['%'] + s;
    if s.len() == 0 {
        assert(s =~= Seq::<char>::empty());
        assert(w =~= seq!['%']);
        assert(w.drop_last() =~= Seq::<char>::empty());
        assert(scanned(Seq::<char>::empty()) == Seq::<TokenView>::empty());
        assert(scanned(w) == Seq::<TokenView>::empty().push(TokenView::Value(Seq::empty())));
        assert(Seq::<TokenView>::empty().push(TokenView::Value(Seq::empty())) =~= seq![TokenView::Value(s)]);
    } else {
        let c = s.last();
        assert(!is_special(s[s.len() - 1]));
        let r = s.drop_last();
        assert forall|i: int| 0 <= i < r.len() implies !is_special(#[trigger] r[i]) by {
            assert(r[i] == s[i]);
        }
        lemma_scanned_value(r);
        assert(w.drop_last() =~= seq!['%'] + r);
        assert(w.last() == c);
        let prev = scanned(seq!['%'] + r);
        assert(prev.last() == TokenView::Value(r));
        assert(r.push(c) =~= s);
        assert(scanned(w) == prev.update(0, TokenView::Value(r.push(c))));
        assert(prev.update(0, TokenView::Value(s)) =~= seq![TokenView::Value(s)]);
    }
}

proof fn lemma_scanned_token(t: TokenView)
    requires
        well_formed_token(t),
    ensures
        token_text(t).len() > 0,
        scanned(token_text(t)) == seq![t],
{
    match t {
        TokenView::Symbol(s) => lemma_scanned_plain(s),
        TokenView::Value(s) => lemma_scanned_value(s),
        _ => {
            assert(token_text(t).drop_last() =~= Seq::<char>::empty());
            assert(scanned(Seq::<char>::empty()) == Seq::<TokenView>::empty());
            assert(scanned(token_text(t)) =~= seq![t]);
        },
    }
}

proof fn lemma_tokens_text_scanned(ts: Seq<TokenView>)
    requires
        ts.len() > 0,
        forall|i: int| 0 <= i < ts.len() ==> well_formed_token(#[trigger] ts[i]),
    ensures
        scanned(tokens_text(ts)).len() > 0,
        is_content(scanned(tokens_text(ts)).last()),
        tokens_of(tokens_text(ts)) == ts,
    decreases ts.len(),
{
    if ts.len() == 1 {
        lemma_scanned_token(ts[0]);
        lemma_filter_push(Seq::empty(), ts[0]);
        assert(Seq::<TokenView>::empty().push(ts[0]) =~= seq![ts[0]]);
        assert(Seq::<TokenView>::empty().filter(|t: TokenView| is_content(t)) =~= Seq::empty()) by {
            reveal(Seq::filter);
        }
        assert(seq![ts[0]] =~= ts);
    } else {
        let rest = ts.drop_last();
        let t = ts.last();
        assert forall|i: int| 0 <= i < rest.len() implies well_formed_token(#[trigger] rest[i]) by {
            assert(rest[i] == ts[i]);
        }
        assert(well_formed_token(ts[ts.len() - 1]));
        lemma_tokens_text_scanned(rest);
        lemma_scanned_token(t);
        let x = tokens_text(rest);
        let sep = seq![' '];
        lemma_scanned_concat(x, sep);
        assert(sep.drop_last() =~= Seq::<char>::empty());
        assert(scanned(Seq::<char>::empty()) == Seq::<TokenView>::empty());
        assert(scanned(sep) =~= seq![TokenView::Empty]);
        lemma_scanned_concat(x + sep, token_text(t));
        assert(tokens_text(ts) == x + sep + token_text(t));
        let a = scanned(x);
        assert(scanned(tokens_text(ts)) == a.push(TokenView::Empty).push(t)) by {
            assert(a + seq![TokenView::Empty] =~= a.push(TokenView::Empty));
            assert(a.push(TokenView::Empty) + seq![t] =~= a.push(TokenView::Empty).push(t));
        }
        lemma_filter_push(a, TokenView::Empty);
        lemma_filter_push(a.push(TokenView::Empty), t);
        assert(rest.push(t) =~= ts);
    }
}

/// What the tokenizer gives holds only tokens it can give, and reading back
/// their texts joined by spaces gives the same tokens.
pub proof fn lemma_tokenize_round_trip(s: Seq<char>)
    ensures
        forall|i: int| 0 <= i < tokens_of(s).len() ==> well_formed_token(#[trigger] tokens_of(s)[i]),
        tokens_of(tokens_text(tokens_of(s))) == tokens_of(s),
{
    let ts = tokens_of(s);
    lemma_scanned_shape(s);
    lemma_tokens_have_content(s);
    assert forall|i: int| 0 <= i < ts.len() implies well_formed_token(#[trigger] ts[i]) by {
        assert(is_content(ts[i]));
        assert(ts.contains(ts[i]));
        scanned(s).lemma_filter_contains_rev(|t: TokenView| is_content(t), ts[i]);
        let j = choose|j: int| 0 <= j < scanned(s).len() && scanned(s)[j] == ts[i];
        assert(scanned(s)[j] is Empty || well_formed_token(scanned(s)[j]));
    }
    if ts.len() > 0 {
        lemma_tokens_text_scanned(ts);
    } else {
        assert(tokens_text(ts) =~= Seq::<char>::empty());
        assert(scanned(Seq::<char>::empty()) =~= Seq::<TokenView>::empty());
        assert(Seq::<TokenView>::empty().filter(|t: TokenView| is_content(t)) =~= Seq::empty()) by {
            reveal(Seq::filter);
        }
    }
}

} // verus!
