//! Regions: sequences of operations with arguments of their own.
use vstd::prelude::*;

use crate::ir::dag::{Id, IdSource, Value};
use crate::ir::operation::Operation;
use crate::schedule::{dependencies_ordered, in_place, schedule};

verus! {

/// A region: its identifier, its arguments (values of the region itself)
/// and its operations in order.
pub struct Region {
    id: Id,
    arguments: Vec<Value>,
    operations: Vec<Operation>,
}

/// The arguments of a region with identifier `id`: `id.value(0..n)`.
pub open spec fn arguments_of(id: Id, n: nat) -> Seq<Value> {
    Seq::new(n, |i: int| Value { owner: id, index: i as usize })
}

/// How generated code binds the results of an operation.
#[derive(Clone, Copy, PartialEq, Eq, Structural, Debug)]
pub enum StatementForm {
    /// A terminator stands alone as the region's result.
    Terminator,
    /// An operation without results is a statement of its own.
    Discard,
    /// One result is bound by `let`.
    Bind,
    /// Several results are bound by `let` to a tuple.
    BindTuple,
}

/// The form of the statement for an operation.
pub open spec fn statement_form(op: Operation) -> StatementForm {
    if op.terminator {
        StatementForm::Terminator
    } else if op.outputs@.len() == 0 {
        StatementForm::Discard
    } else if op.outputs@.len() == 1 {
        StatementForm::Bind
    } else {
        StatementForm::BindTuple
    }
}

/// One statement of generated code: an operation and how it is bound.
#[derive(Clone, Copy, PartialEq, Eq, Structural, Debug)]
pub struct Statement {
    pub operation: usize,
    pub form: StatementForm,
}

/// The identifiers of operations, as the scheduler takes them.
pub open spec fn operation_ids(ops: Seq<Operation>) -> Seq<u64> {
    ops.map_values(|op: Operation| op.id.0 as u64)
}

/// The owners of the inputs of each operation, as the scheduler takes them.
pub open spec fn input_owners(ops: Seq<Operation>) -> Seq<Seq<u64>> {
    ops.map_values(|op: Operation| op.inputs@.map_values(|v: Value| v.owner.0 as u64))
}

/// A well terminated region holds at most one terminator, as its last
/// operation; `append` takes no operation once it is there. Every region is
/// well terminated (the type's invariant, which [`Region::operations`]
/// states), so this holds of every region.
pub proof fn lemma_single_terminator(r: Region, i: int)
    requires
        r.well_terminated(),
        0 <= i < r.ops().len(),
        r.ops()[i].terminator,
    ensures
        i == r.ops().len() - 1,
        r.is_terminated(),
{
}

impl Region {
    /// The identifier of the region.
    pub closed spec fn ident(self) -> Id {
        self.id
    }

    /// The arguments of the region.
    pub closed spec fn args(self) -> Seq<Value> {
        self.arguments@
    }

    /// The operations of the region, in order.
    pub closed spec fn ops(self) -> Seq<Operation> {
        self.operations@
    }

    /// Every region is well terminated: nothing but `new` makes one, and
    /// only `push` (and `append`) change it.
    #[verifier::type_invariant]
    spec fn terminators_last(self) -> bool {
        self.well_terminated()
    }

    /// A region is larger than each of its operations.
    pub proof fn lemma_operations_decrease(self, i: int)
        requires
            0 <= i < self.ops().len(),
        ensures
            decreases_to!(self => self.ops()[i]),
    {
        assert(decreases_to!(self => self.operations));
        assert(decreases_to!(self.operations => self.operations@));
        assert(decreases_to!(self.operations@ => self.operations@[i]));
    }

    /// A region is larger than its operations.
    pub proof fn lemma_operation_list_decreases(self)
        ensures
            decreases_to!(self => self.ops()),
    {
        assert(decreases_to!(self => self.operations));
        assert(decreases_to!(self.operations => self.operations@));
    }

    /// The identifier of the region.
    pub fn id(&self) -> (r: Id)
        ensures
            r == self.ident(),
    {
        self.id
    }

    /// The operations of the region, in order. Every region holds at most
    /// one terminator, as its last operation.
    pub fn operations(&self) -> (r: &Vec<Operation>)
        ensures
            r@ == self.ops(),
            self.well_terminated(),
    {
        proof {
            use_type_invariant(self);
        }
        &self.operations
    }

    /// A region with a fresh identifier and `num_arguments` arguments.
    pub fn new(ids: &mut IdSource, num_arguments: usize) -> (r: Region)
        ensures
            r.ident().0 == old(ids).next,
            final(ids).next == crate::ir::dag::following(old(ids).next),
            r.args() == arguments_of(r.ident(), num_arguments as nat),
            r.ops().len() == 0,
            r.well_terminated(),
    {
        let id = Id::new(ids);
        let mut arguments: Vec<Value> = Vec::new();
        let mut i: usize = 0;
        while i < num_arguments
            invariant
                i <= num_arguments,
                arguments@ == arguments_of(id, i as nat),
            decreases num_arguments - i,
        {
            arguments.push(id.value(i));
            i = i + 1;
            assert(arguments@ =~= arguments_of(id, i as nat));
        }
        Region { id, arguments, operations: Vec::new() }
    }

    /// The arguments of the region.
    pub fn arguments(&self) -> (r: &Vec<Value>)
        ensures
            r@ == self.args(),
    {
        &self.arguments
    }

    /// The region's last operation is a terminator.
    pub open spec fn is_terminated(&self) -> bool {
        self.ops().len() > 0 && self.ops().last().terminator
    }

    /// No operation but the last is a terminator.
    pub open spec fn well_terminated(&self) -> bool {
        forall|i: int| 0 <= i < self.ops().len() - 1 ==> !(#[trigger] self.ops()[i]).terminator
    }

    /// Whether the region's last operation is a terminator.
    pub fn terminated(&self) -> (r: bool)
        ensures
            r == self.is_terminated(),
    {
        let n = self.operations.len();
        n > 0 && self.operations[n - 1].terminator
    }

    /// Appends an operation to a region that has not been terminated, and
    /// gives back the operation's results.
    pub fn push(&mut self, operation: Operation) -> (outputs: Vec<Value>)
        requires
            !old(self).is_terminated(),
        ensures
            final(self).ops() == old(self).ops().push(operation),
            final(self).ident() == old(self).ident(),
            final(self).args() == old(self).args(),
            outputs@ == operation.outputs@,
            old(self).well_terminated() ==> final(self).well_terminated(),
            operation.terminator ==> final(self).is_terminated(),
    {
        let mut outputs: Vec<Value> = Vec::new();
        let mut i: usize = 0;
        while i < operation.outputs.len()
            invariant
                i <= operation.outputs.len(),
                outputs@ == operation.outputs@.take(i as int),
            decreases operation.outputs.len() - i,
        {
            outputs.push(operation.outputs[i]);
            i = i + 1;
            assert(outputs@ =~= operation.outputs@.take(i as int));
        }
        assert(operation.outputs@.take(operation.outputs.len() as int) =~= operation.outputs@);
        proof {
            use_type_invariant(&*self);
        }
        let mut operations: Vec<Operation> = Vec::new();
        std::mem::swap(&mut operations, &mut self.operations);
        operations.push(operation);
        self.operations = operations;
        outputs
    }

    /// Appends an operation (the same as [`Region::push`]).
    pub fn append(&mut self, operation: Operation) -> (outputs: Vec<Value>)
        requires
            !old(self).is_terminated(),
        ensures
            final(self).ops() == old(self).ops().push(operation),
            final(self).ident() == old(self).ident(),
            final(self).args() == old(self).args(),
            outputs@ == operation.outputs@,
            old(self).well_terminated() ==> final(self).well_terminated(),
            operation.terminator ==> final(self).is_terminated(),
    {
        self.push(operation)
    }

    /// The statements of generated code for the region: every operation in
    /// place with the form of its binding, provided every operation comes
    /// after the producers of its inputs; otherwise a node of the dependency
    /// cycle that an input produced too late makes.
    pub fn statements(&self) -> (r: Result<Vec<Statement>, usize>)
        requires
            self.ops().len() <= usize::MAX,
        ensures
            match r {
                Ok(stmts) => {
                    &&& stmts@.len() == self.ops().len()
                    &&& forall|i: int|
                        0 <= i < stmts@.len() ==> (#[trigger] stmts@[i]).operation == i
                            && stmts@[i].form == statement_form(self.ops()[i])
                    &&& dependencies_ordered(
                        operation_ids(self.ops()),
                        input_owners(self.ops()),
                    )
                },
                Err(node) => node < self.ops().len() && !dependencies_ordered(
                    operation_ids(self.ops()),
                    input_owners(self.ops()),
                ),
            },
    {
        let mut ids: Vec<u64> = Vec::new();
        let mut inputs: Vec<Vec<u64>> = Vec::new();
        let mut i: usize = 0;
        while i < self.operations.len()
            invariant
                i <= self.operations.len(),
                ids@ == operation_ids(self.ops()).take(i as int),
                inputs@.map_values(|v: Vec<u64>| v@) == input_owners(self.ops()).take(
                    i as int,
                ),
            decreases self.operations.len() - i,
        {
            let op = &self.operations[i];
            let mut owners: Vec<u64> = Vec::new();
            let mut k: usize = 0;
            while k < op.inputs.len()
                invariant
                    k <= op.inputs.len(),
                    owners@ == op.inputs@.take(k as int).map_values(|v: Value| v.owner.0 as u64),
                decreases op.inputs.len() - k,
            {
                owners.push(op.inputs[k].owner.0 as u64);
                k = k + 1;
                assert(owners@ =~= op.inputs@.take(k as int).map_values(
                    |v: Value| v.owner.0 as u64,
                ));
            }
            assert(op.inputs@.take(op.inputs.len() as int) =~= op.inputs@);
            ids.push(op.id.0 as u64);
            let ghost before = inputs@;
            let ghost owned = owners@;
            inputs.push(owners);
            assert(inputs@.map_values(|v: Vec<u64>| v@) =~= before.map_values(|v: Vec<u64>| v@).push(
                owned,
            ));
            assert(input_owners(self.ops())[i as int] == owned);
            i = i + 1;
            assert(ids@ =~= operation_ids(self.ops()).take(i as int));
            assert(inputs@.map_values(|v: Vec<u64>| v@) =~= input_owners(self.ops()).take(
                i as int,
            ));
        }
        assert(operation_ids(self.ops()).take(i as int) =~= operation_ids(self.ops()));
        assert(input_owners(self.ops()).take(i as int) =~= input_owners(self.ops()));
        match schedule(&ids, &inputs) {
            Ok(order) => {
                let mut stmts: Vec<Statement> = Vec::new();
                let mut j: usize = 0;
                while j < order.len()
                    invariant
                        order@ == in_place(self.ops().len()),
                        j <= order.len(),
                        stmts@.len() == j,
                        forall|q: int|
                            0 <= q < j ==> (#[trigger] stmts@[q]).operation == q && stmts@[q].form
                                == statement_form(self.ops()[q]),
                    decreases order.len() - j,
                {
                    let index = order[j];
                    let op = &self.operations[index];
                    let form = if op.terminator {
                        StatementForm::Terminator
                    } else if op.outputs.len() == 0 {
                        StatementForm::Discard
                    } else if op.outputs.len() == 1 {
                        StatementForm::Bind
                    } else {
                        StatementForm::BindTuple
                    };
                    stmts.push(Statement { operation: index, form });
                    j = j + 1;
                }
                Ok(stmts)
            },
            Err(node) => Err(node),
        }
    }
}

} // verus!
