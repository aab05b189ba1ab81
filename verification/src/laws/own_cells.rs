//! A clause is laid out in cells of its own: what it writes does not depend
//! on what the heap held before, and reading its head touches no cell that
//! was there before. So the head of a clause can be read whatever the heap
//! held when the clause was compiled.

use vstd::prelude::*;
use crate::ast::{Clause, CompoundTerm, SimpleTerm, Term};
use crate::block::{
    block_fits, block_width, first_argument, follow, follows, is_wrapped, slot_readable, subterm,
    subterms, subterms_readable,
};
use crate::heap::{HeapEntry, HeapTag};
use crate::laws::layout_shape::{
    alias_leads_to_variable, aliases_lead_to_variables, lemma_settled_is_readable,
};
use crate::laws::shape::{cell_formed, enclosed, formed, is_pointer};
use crate::layout::{cell, Layout};

verus! {

/// Whether the two heaps are as long and hold the same cells from `base`
/// on.
pub open spec fn same_from(cells: Seq<HeapEntry>, other: Seq<HeapEntry>, base: int) -> bool {
    &&& cells.len() == other.len()
    &&& forall|i: int| base <= i < cells.len() ==> cells[i] == other[i]
}

/// Following variable occurrences from a cell of a part of the heap that no
/// pointer leaves reads cells of that part alone.
pub proof fn lemma_follow_reads_own_cells(
    cells: Seq<HeapEntry>,
    other: Seq<HeapEntry>,
    pointer: HeapEntry,
    hops: nat,
    base: int,
)
    requires
        0 <= base,
        same_from(cells, other, base),
        enclosed(cells, base, cells.len() as int),
        is_pointer(pointer) ==> base <= pointer.data < cells.len(),
    ensures
        follow(cells, pointer, hops) == follow(other, pointer, hops),
        follows(cells, pointer, hops) == follows(other, pointer, hops),
        is_pointer(follow(cells, pointer, hops)) ==> base <= follow(cells, pointer, hops).data
            < cells.len(),
    decreases hops,
{
    if pointer.is_var_or_unify() {
        let next = cells[pointer.data as int];
        assert(other[pointer.data as int] == next);
        if hops > 0 && next != pointer {
            lemma_follow_reads_own_cells(cells, other, next, (hops - 1) as nat, base);
        }
    }
}

/// Reading the arguments of a block in a part of the heap that no pointer
/// leaves reads cells of that part alone.
pub proof fn lemma_block_reads_own_cells(
    cells: Seq<HeapEntry>,
    other: Seq<HeapEntry>,
    reference: HeapEntry,
    base: int,
)
    requires
        0 <= base <= reference.data,
        same_from(cells, other, base),
        enclosed(cells, base, cells.len() as int),
    ensures
        block_fits(cells, reference.data as int) == block_fits(other, reference.data as int),
        subterms(cells, reference) == subterms(other, reference),
        subterms_readable(cells, reference) == subterms_readable(other, reference),
{
    let start = reference.data as int;
    if start < cells.len() {
        assert(cells[start] == other[start]);
        if start + 2 < cells.len() {
            assert(cells[start + 2] == other[start + 2]);
        }
        assert(is_wrapped(cells, start) == is_wrapped(other, start));
        assert(block_width(cells, start) == block_width(other, start));
        if block_fits(cells, start) {
            let first = first_argument(cells, start);
            assert forall|slot: int| first <= slot < first + cells[start].data implies subterm(
                cells,
                slot,
            ) == subterm(other, slot) && slot_readable(cells, slot) == slot_readable(
                other,
                slot,
            ) by {
                assert(cells[slot] == other[slot]);
                lemma_follow_reads_own_cells(cells, other, cells[slot], cells.len(), base);
                let end = follow(cells, cells[slot], cells.len());
                if end.tag == HeapTag::Reference {
                    assert(is_pointer(end));
                    assert(cells[end.data as int] == other[end.data as int]);
                }
            }
            assert(subterms(cells, reference) =~= subterms(other, reference));
        }
    }
}

impl Layout {
    /// Whether the two states are alike from `from` on: as many cells, the
    /// same cells from `from` on, the same names and the same variables in
    /// scope.
    pub open spec fn alike_from(self, other: Layout, from: int) -> bool {
        &&& same_from(self.cells, other.cells, from)
        &&& self.symbols == other.symbols
        &&& self.variables == other.variables
    }

    /// An atom or variable written to a cell of states that are alike leaves
    /// them alike.
    pub proof fn lemma_put_simple_alike(self, other: Layout, term: SimpleTerm, index: int, from: int)
        requires
            self.alike_from(other, from),
            0 <= from <= index < self.cells.len(),
        ensures
            self.put_simple(term, index).alike_from(other.put_simple(term, index), from),
    {
    }

    /// A compound term laid out on states that are alike leaves them alike.
    pub proof fn lemma_put_compound_alike(self, other: Layout, term: CompoundTerm, from: int)
        requires
            self.alike_from(other, from),
            0 <= from <= self.cells.len(),
        ensures
            self.put_compound(term).alike_from(other.put_compound(term), from),
        decreases term, 0nat,
    {
        let start = self.cells.len() as int;
        let count = term.parameters@.len();
        let headed = self.reserve(2 + count).store(start, cell(HeapTag::Arity, count as int));
        let twin = other.reserve(2 + count).store(start, cell(HeapTag::Arity, count as int));
        assert(headed.alike_from(twin, from));
        headed.lemma_put_simple_alike(twin, term.name, start + 1, from);
        headed.put_simple(term.name, start + 1).lemma_put_parameters_alike(
            twin.put_simple(term.name, start + 1),
            term.parameters@,
            start + 2,
            count,
            from,
        );
    }

    /// Parameters written to states that are alike leave them alike.
    pub proof fn lemma_put_parameters_alike(
        self,
        other: Layout,
        parameters: Seq<Term>,
        first: int,
        count: nat,
        from: int,
    )
        requires
            self.alike_from(other, from),
            0 <= from <= first,
            count <= parameters.len(),
            first + count <= self.cells.len(),
        ensures
            self.put_parameters(parameters, first, count).alike_from(
                other.put_parameters(parameters, first, count),
                from,
            ),
        decreases parameters, count,
    {
        if count > 0 {
            let before = self.put_parameters(parameters, first, (count - 1) as nat);
            let twin = other.put_parameters(parameters, first, (count - 1) as nat);
            let slot = first + count - 1;
            self.lemma_put_parameters_alike(other, parameters, first, (count - 1) as nat, from);
            self.lemma_put_parameters_keeps(parameters, first, (count - 1) as nat);
            match parameters[count - 1] {
                Term::Simple(simple) => {
                    before.lemma_put_simple_alike(twin, simple, slot, from);
                },
                Term::Compound(compound) => {
                    before.lemma_put_compound_alike(twin, compound, from);
                    before.lemma_put_compound_keeps(compound);
                },
            }
        }
    }

    /// A head or goal laid out on states that are alike leaves them alike.
    pub proof fn lemma_put_goal_alike(self, other: Layout, term: Term, from: int)
        requires
            self.alike_from(other, from),
            0 <= from <= self.cells.len(),
        ensures
            self.put_goal(term).alike_from(other.put_goal(term), from),
    {
        match term {
            Term::Simple(simple) => {
                let wrapped = self.put_wrapper().reserve(1);
                let twin = other.put_wrapper().reserve(1);
                assert(wrapped.alike_from(twin, from));
                wrapped.lemma_put_simple_alike(twin, simple, self.cells.len() as int + 1, from);
            },
            Term::Compound(compound) => {
                self.lemma_put_compound_alike(other, compound, from);
            },
        }
    }

    /// Goals laid out on states that are alike leave them alike.
    pub proof fn lemma_put_goals_alike(self, other: Layout, goals: Seq<Term>, count: nat, from: int)
        requires
            self.alike_from(other, from),
            0 <= from <= self.cells.len(),
            count <= goals.len(),
        ensures
            self.put_goals(goals, count).alike_from(other.put_goals(goals, count), from),
        decreases count,
    {
        if count > 0 {
            self.lemma_put_goals_alike(other, goals, (count - 1) as nat, from);
            self.lemma_put_goals_keeps(goals, (count - 1) as nat);
            self.put_goals(goals, (count - 1) as nat).lemma_put_goal_alike(
                other.put_goals(goals, (count - 1) as nat),
                goals[count - 1],
                from,
            );
        }
    }

    /// The head of a clause that has been laid out is a block within the
    /// heap whose arguments can be read, whatever the heap held before.
    pub proof fn lemma_head_is_readable(self, clause: Clause)
        requires
            self.put_clause(clause).cells.len() <= usize::MAX,
        ensures
            subterms_readable(
                self.put_clause(clause).cells,
                cell(HeapTag::Reference, self.cells.len() as int),
            ),
    {
        let base = self.cells.len() as int;
        let blank = Layout {
            cells: Seq::new(self.cells.len(), |i: int| cell(HeapTag::Constant, 0)),
            ..self
        };
        let scoped = self.forget_variables();
        let twin = blank.forget_variables();
        let headed = scoped.put_goal(clause.head);
        assert(scoped.alike_from(twin, base));
        scoped.lemma_put_goal_alike(twin, clause.head, base);
        scoped.lemma_put_goal_keeps(clause.head);
        headed.lemma_put_goals_alike(
            twin.put_goal(clause.head),
            clause.body@,
            clause.body@.len(),
            base,
        );
        let done = self.put_clause(clause);
        let other = blank.put_clause(clause);
        assert(done.alike_from(other, base));
        assert forall|at: int| 0 <= at < blank.cells.len() implies #[trigger] cell_formed(
            blank.cells,
            at,
        ) && alias_leads_to_variable(blank.cells, at) by {}
        assert(formed(blank.cells));
        assert(aliases_lead_to_variables(blank.cells));
        self.lemma_put_clause_keeps(clause);
        assert(blank.settled());
        blank.lemma_put_clause_shaped(clause);
        let reference = cell(HeapTag::Reference, base);
        assert(blank.describe_clause(clause).terms[0] == reference);
        lemma_settled_is_readable(other.cells, reference);
        lemma_block_reads_own_cells(other.cells, done.cells, reference, base);
    }
}

} // verus!
