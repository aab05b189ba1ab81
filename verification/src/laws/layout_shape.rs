//! What the compiler leaves on the heap has the shape of terms: every block
//! lies within the heap, every reference leads to a block, every later
//! occurrence of a variable leads to the first, and no cell of a clause
//! points out of the clause.

use vstd::prelude::*;
use crate::ast::{Clause, CompoundTerm, Query, SimpleTerm, Term};
use crate::block::{
    block_fits, first_argument, follow, follows, slot_readable, subterms_readable,
};
use crate::heap::{HeapEntry, HeapTag};
use crate::laws::shape::{
    cell_formed, enclosed, filled, formed, grown, is_pointer, lemma_grown_chains, lemma_grown_keeps_block,
    lemma_grown_keeps_enclosed, lemma_new_block_keeps_formed, lemma_new_wrapper_keeps_formed,
    lemma_same_blocks_at, lemma_write_keeps_formed, same_blocks,
};
use crate::layout::{cell, Layout};

verus! {

/// Whether the cell at `at`, if it holds a later occurrence of a variable,
/// names a cell that holds an unbound variable.
pub open spec fn alias_leads_to_variable(cells: Seq<HeapEntry>, at: int) -> bool {
    cells[at].tag == HeapTag::Unify ==> cells[at].data < cells.len() && cells[cells[at].data as int]
        == cell(HeapTag::Variable, cells[at].data as int)
}

/// Whether every later occurrence of a variable names a cell that holds an
/// unbound variable.
pub open spec fn aliases_lead_to_variables(cells: Seq<HeapEntry>) -> bool {
    forall|at: int| 0 <= at < cells.len() ==> #[trigger] alias_leads_to_variable(cells, at)
}

/// On a heap as the compiler leaves it, the arguments of every block can be
/// read: a later occurrence of a variable leads to the first, and there the
/// walk ends.
pub proof fn lemma_settled_is_readable(cells: Seq<HeapEntry>, reference: HeapEntry)
    requires
        formed(cells),
        aliases_lead_to_variables(cells),
        block_fits(cells, reference.data as int),
    ensures
        subterms_readable(cells, reference),
{
    let start = reference.data as int;
    assert forall|slot: int|
        first_argument(cells, start) <= slot < first_argument(cells, start)
            + cells[start].data implies #[trigger] slot_readable(cells, slot) by {
        lemma_settled_slot_is_readable(cells, slot);
    }
}

/// On a heap as the compiler leaves it, every cell can be read as a
/// subterm.
pub proof fn lemma_settled_slot_is_readable(cells: Seq<HeapEntry>, slot: int)
    requires
        formed(cells),
        aliases_lead_to_variables(cells),
        0 <= slot < cells.len(),
    ensures
        slot_readable(cells, slot),
{
    let entry = cells[slot];
    assert(cell_formed(cells, slot));
    assert(alias_leads_to_variable(cells, slot));
    if entry.tag == HeapTag::Unify {
        let next = cells[entry.data as int];
        assert(follows(cells, next, (cells.len() - 1) as nat));
        assert(follow(cells, entry, cells.len()) == follow(cells, next, (cells.len() - 1) as nat));
    }
}

impl Layout {
    /// Whether the heap is as the compiler leaves it between two clauses:
    /// formed, its later occurrences of variables leading to unbound
    /// variables, and short enough to be indexed.
    pub open spec fn settled(self) -> bool {
        &&& self.cells.len() <= usize::MAX
        &&& formed(self.cells)
        &&& aliases_lead_to_variables(self.cells)
    }

    /// Whether the heap is as the compiler leaves it between two terms of
    /// the clause that starts at `base`: settled, the clause closed so far,
    /// and every variable in scope an unbound variable of the clause.
    pub open spec fn shaped(self, base: int) -> bool {
        &&& self.settled()
        &&& 0 <= base <= self.cells.len()
        &&& enclosed(self.cells, base, self.cells.len() as int)
        &&& forall|name: Seq<char>| #[trigger]
            self.variables.contains_key(name) ==> base <= self.variables[name] < self.cells.len()
                && self.cells[self.variables[name] as int] == cell(
                HeapTag::Variable,
                self.variables[name] as int,
            )
    }

    /// Writing an atom or variable into a cell of the clause that is still
    /// to be written keeps the shape.
    pub proof fn lemma_put_simple_shaped(self, term: SimpleTerm, index: int, base: int)
        requires
            self.shaped(base),
            base <= index < self.cells.len(),
            self.cells[index].tag == HeapTag::Uninitialized,
        ensures
            self.put_simple(term, index).shaped(base),
            same_blocks(self.cells, self.put_simple(term, index).cells),
            self.put_simple(term, index).cells[index].tag != HeapTag::Uninitialized,
            self.put_simple(term, index).cells[index].tag != HeapTag::Arity,
            forall|at: int|
                0 <= at < self.cells.len() && at != index ==> self.put_simple(
                    term,
                    index,
                ).cells[at] == self.cells[at],
    {
        let after = self.put_simple(term, index);
        let entry = after.cells[index];
        assert(after.cells == self.cells.update(index, entry));
        match term {
            SimpleTerm::Atom(name) => {},
            SimpleTerm::Variable(name) => {
                if self.variables.contains_key(name@) {
                    let first = self.variables[name@] as int;
                    assert(self.cells[first] == cell(HeapTag::Variable, first));
                }
            },
        }
        lemma_write_keeps_formed(self.cells, index, entry);
        assert forall|at: int| 0 <= at < after.cells.len() implies #[trigger] alias_leads_to_variable(
            after.cells,
            at,
        ) by {
            if at != index {
                assert(alias_leads_to_variable(self.cells, at));
            }
        }
        assert forall|at: int|
            base <= at < after.cells.len() && is_pointer(
                #[trigger] after.cells[at],
            ) implies base <= after.cells[at].data < after.cells.len() by {
            if at != index {
                assert(is_pointer(self.cells[at]));
            }
        }
        assert forall|name: Seq<char>| #[trigger]
            after.variables.contains_key(name) implies base <= after.variables[name]
            < after.cells.len() && after.cells[after.variables[name] as int] == cell(
            HeapTag::Variable,
            after.variables[name] as int,
        ) by {
            if self.variables.contains_key(name) {
                assert(self.cells[self.variables[name] as int].tag == HeapTag::Variable);
            }
        }
    }

    /// A reference to a block of the clause, written into a cell of the
    /// clause that is still to be written, keeps the shape.
    pub proof fn lemma_link_shaped(self, slot: int, target: int, base: int)
        requires
            self.shaped(base),
            base <= slot < self.cells.len(),
            self.cells[slot].tag == HeapTag::Uninitialized,
            base <= target,
            block_fits(self.cells, target),
        ensures
            self.store(slot, cell(HeapTag::Reference, target)).shaped(base),
            same_blocks(self.cells, self.store(slot, cell(HeapTag::Reference, target)).cells),
    {
        let entry = cell(HeapTag::Reference, target);
        let after = self.store(slot, entry);
        lemma_write_keeps_formed(self.cells, slot, entry);
        assert forall|at: int| 0 <= at < after.cells.len() implies #[trigger] alias_leads_to_variable(
            after.cells,
            at,
        ) by {
            if at != slot {
                assert(alias_leads_to_variable(self.cells, at));
            }
        }
        assert forall|at: int|
            base <= at < after.cells.len() && is_pointer(
                #[trigger] after.cells[at],
            ) implies base <= after.cells[at].data < after.cells.len() by {
            if at != slot {
                assert(is_pointer(self.cells[at]));
            }
        }
        assert forall|name: Seq<char>| #[trigger]
            after.variables.contains_key(name) implies base <= after.variables[name]
            < after.cells.len() && after.cells[after.variables[name] as int] == cell(
            HeapTag::Variable,
            after.variables[name] as int,
        ) by {
            assert(self.cells[self.variables[name] as int].tag == HeapTag::Variable);
        }
    }

    /// Cells added on top with nothing pointing anywhere keep the shape,
    /// if the heap stays formed.
    pub proof fn lemma_grown_shaped(self, longer: Layout, base: int)
        requires
            self.shaped(base),
            grown(self.cells, longer.cells),
            formed(longer.cells),
            longer.cells.len() <= usize::MAX,
            longer.symbols == self.symbols,
            longer.variables == self.variables,
            forall|at: int|
                self.cells.len() <= at < longer.cells.len() ==> !is_pointer(
                    #[trigger] longer.cells[at],
                ),
        ensures
            longer.shaped(base),
    {
        assert forall|at: int| 0 <= at < longer.cells.len() implies #[trigger] alias_leads_to_variable(
            longer.cells,
            at,
        ) by {
            if at < self.cells.len() {
                assert(longer.cells[at] == self.cells[at]);
                assert(alias_leads_to_variable(self.cells, at));
                if self.cells[at].tag == HeapTag::Unify {
                    assert(longer.cells[self.cells[at].data as int]
                        == self.cells[self.cells[at].data as int]);
                }
            }
        }
        assert forall|at: int|
            base <= at < longer.cells.len() && is_pointer(
                #[trigger] longer.cells[at],
            ) implies base <= longer.cells[at].data < longer.cells.len() by {
            if at < self.cells.len() {
                assert(longer.cells[at] == self.cells[at]);
                assert(is_pointer(self.cells[at]));
            }
        }
        assert forall|name: Seq<char>| #[trigger]
            longer.variables.contains_key(name) implies base <= longer.variables[name]
            < longer.cells.len() && longer.cells[longer.variables[name] as int] == cell(
            HeapTag::Variable,
            longer.variables[name] as int,
        ) by {
            assert(longer.cells[self.variables[name] as int] == self.cells[self.variables[name] as int]);
        }
    }

    /// A compound term is laid out as a block that lies within the heap,
    /// with every cell written, and keeps the shape.
    pub proof fn lemma_put_compound_shaped(self, term: CompoundTerm, base: int)
        requires
            self.shaped(base),
            self.put_compound(term).cells.len() <= usize::MAX,
        ensures
            self.put_compound(term).shaped(base),
            grown(self.cells, self.put_compound(term).cells),
            block_fits(self.put_compound(term).cells, self.cells.len() as int),
            filled(
                self.put_compound(term).cells,
                self.cells.len() as int,
                self.put_compound(term).cells.len() as int,
            ),
        decreases term, 0nat,
    {
        let start = self.cells.len() as int;
        let count = term.parameters@.len();
        let reserved = self.reserve(2 + count);
        let headed = reserved.store(start, cell(HeapTag::Arity, count as int));
        let named = headed.put_simple(term.name, start + 1);
        let done = named.put_parameters(term.parameters@, start + 2, count);
        self.lemma_put_compound_keeps(term);
        headed.lemma_put_simple_keeps(term.name, start + 1);
        named.lemma_put_parameters_keeps(term.parameters@, start + 2, count);
        assert(done == self.put_compound(term));
        assert(start + 2 + count <= done.cells.len());
        lemma_new_block_keeps_formed(self.cells, count);
        self.lemma_grown_shaped(headed, base);
        headed.lemma_put_simple_shaped(term.name, start + 1, base);
        assert forall|at: int| start + 2 <= at < start + 2 + count implies (
        #[trigger] named.cells[at]).tag == HeapTag::Uninitialized by {
            assert(headed.cells[at].tag == HeapTag::Uninitialized);
        }
        named.lemma_put_parameters_shaped(term.parameters@, start + 2, count, count, base);
        assert(grown(self.cells, done.cells));
        assert(block_fits(headed.cells, start));
        lemma_same_blocks_at(headed.cells, named.cells, start);
        assert(block_fits(named.cells, start));
        assert(done.cells[start] == named.cells[start]);
        assert(block_fits(done.cells, start)) by {
            if start + 2 < named.cells.len() {
                assert(done.cells[start + 2].tag != HeapTag::Arity);
            }
        }
        assert forall|at: int| start <= at < done.cells.len() implies (#[trigger] done.cells[at]).tag
            != HeapTag::Uninitialized by {
            if at == start {
            } else if at == start + 1 {
                assert(done.cells[at] == named.cells[at]);
            } else if at < start + 2 + count {
            } else {
            }
        }
    }

    /// Parameters written to cells of a block that are still to be written
    /// keep the shape. The cells of the parameters written are then written,
    /// those of the parameters to come are not, and the heap above the block
    /// holds the blocks of the nested terms, every cell written.
    pub proof fn lemma_put_parameters_shaped(
        self,
        parameters: Seq<Term>,
        first: int,
        count: nat,
        total: nat,
        base: int,
    )
        requires
            self.shaped(base),
            base <= first,
            count <= total <= parameters.len(),
            first + total <= self.cells.len(),
            forall|at: int|
                first <= at < first + total ==> (#[trigger] self.cells[at]).tag
                    == HeapTag::Uninitialized,
            self.put_parameters(parameters, first, count).cells.len() <= usize::MAX,
        ensures
            self.put_parameters(parameters, first, count).shaped(base),
            self.cells.len() <= self.put_parameters(parameters, first, count).cells.len(),
            forall|at: int|
                0 <= at < first ==> #[trigger] self.put_parameters(
                    parameters,
                    first,
                    count,
                ).cells[at] == self.cells[at],
            forall|at: int|
                first + total <= at < self.cells.len() ==> #[trigger] self.put_parameters(
                    parameters,
                    first,
                    count,
                ).cells[at] == self.cells[at],
            forall|at: int|
                first <= at < first + count ==> (#[trigger] self.put_parameters(
                    parameters,
                    first,
                    count,
                ).cells[at]).tag != HeapTag::Uninitialized && self.put_parameters(
                    parameters,
                    first,
                    count,
                ).cells[at].tag != HeapTag::Arity,
            forall|at: int|
                first + count <= at < first + total ==> (#[trigger] self.put_parameters(
                    parameters,
                    first,
                    count,
                ).cells[at]).tag == HeapTag::Uninitialized,
            filled(
                self.put_parameters(parameters, first, count).cells,
                self.cells.len() as int,
                self.put_parameters(parameters, first, count).cells.len() as int,
            ),
            self.cells.len() < self.put_parameters(parameters, first, count).cells.len()
                ==> self.put_parameters(parameters, first, count).cells[self.cells.len() as int].tag
                == HeapTag::Arity,
        decreases parameters, count,
    {
        if count > 0 {
            let before = self.put_parameters(parameters, first, (count - 1) as nat);
            let slot = first + count - 1;
            let after = self.put_parameters(parameters, first, count);
            self.lemma_put_parameters_keeps(parameters, first, (count - 1) as nat);
            match parameters[count - 1] {
                Term::Simple(simple) => {
                    before.lemma_put_simple_keeps(simple, slot);
                    self.lemma_put_parameters_shaped(
                        parameters,
                        first,
                        (count - 1) as nat,
                        total,
                        base,
                    );
                    before.lemma_put_simple_shaped(simple, slot, base);
                },
                Term::Compound(compound) => {
                    let nested = before.put_compound(compound);
                    before.lemma_put_compound_keeps(compound);
                    self.lemma_put_parameters_shaped(
                        parameters,
                        first,
                        (count - 1) as nat,
                        total,
                        base,
                    );
                    before.lemma_put_compound_shaped(compound, base);
                    assert(nested.cells[slot] == before.cells[slot]);
                    nested.lemma_link_shaped(slot, before.cells.len() as int, base);
                    assert forall|at: int| first <= at < first + count implies (
                    #[trigger] after.cells[at]).tag != HeapTag::Uninitialized
                        && after.cells[at].tag != HeapTag::Arity by {
                        if at < slot {
                            assert(nested.cells[at] == before.cells[at]);
                        }
                    }
                    assert forall|at: int| first + count <= at < first + total implies (
                    #[trigger] after.cells[at]).tag == HeapTag::Uninitialized by {
                        assert(nested.cells[at] == before.cells[at]);
                    }
                    assert forall|at: int| 0 <= at < first implies #[trigger] after.cells[at]
                        == self.cells[at] by {
                        assert(nested.cells[at] == before.cells[at]);
                    }
                    assert forall|at: int|
                        first + total <= at < self.cells.len() implies #[trigger] after.cells[at]
                        == self.cells[at] by {
                        assert(nested.cells[at] == before.cells[at]);
                    }
                    assert forall|at: int|
                        self.cells.len() <= at < after.cells.len() implies (
                    #[trigger] after.cells[at]).tag != HeapTag::Uninitialized by {
                        if at < before.cells.len() {
                            assert(nested.cells[at] == before.cells[at]);
                        }
                    }
                    if self.cells.len() < before.cells.len() {
                        assert(nested.cells[self.cells.len() as int] == before.cells[self.cells.len() as int]);
                    }
                },
            }
        }
    }

    /// A head or goal is laid out as a block that lies within the heap,
    /// with every cell written, and keeps the shape.
    pub proof fn lemma_put_goal_shaped(self, term: Term, base: int)
        requires
            self.shaped(base),
            self.put_goal(term).cells.len() <= usize::MAX,
        ensures
            self.put_goal(term).shaped(base),
            grown(self.cells, self.put_goal(term).cells),
            block_fits(self.put_goal(term).cells, self.cells.len() as int),
            filled(
                self.put_goal(term).cells,
                self.cells.len() as int,
                self.put_goal(term).cells.len() as int,
            ),
    {
        let start = self.cells.len() as int;
        self.lemma_put_goal_keeps(term);
        match term {
            Term::Simple(simple) => {
                let room = self.put_wrapper().reserve(1);
                let done = room.put_simple(simple, start + 1);
                assert(done == self.put_goal(term));
                lemma_new_wrapper_keeps_formed(self.cells);
                assert(room.cells =~= (self.cells + Seq::new(1, |i: int| HeapEntry::empty())).update(
                    start,
                    cell(HeapTag::Arity, 1),
                ) + Seq::new(1, |i: int| HeapEntry::empty()));
                self.lemma_grown_shaped(room, base);
                room.lemma_put_simple_shaped(simple, start + 1, base);
                lemma_same_blocks_at(room.cells, done.cells, start);
                assert(grown(self.cells, done.cells));
                assert forall|at: int| start <= at < done.cells.len() implies (
                #[trigger] done.cells[at]).tag != HeapTag::Uninitialized by {
                    if at == start {
                        assert(done.cells[at] == room.cells[at]);
                    }
                }
            },
            Term::Compound(compound) => {
                self.lemma_put_compound_shaped(compound, base);
            },
        }
    }

    /// Goals are laid out as blocks that lie within the heap, with every
    /// cell written, and keep the shape.
    pub proof fn lemma_put_goals_shaped(self, goals: Seq<Term>, count: nat, base: int)
        requires
            self.shaped(base),
            count <= goals.len(),
            self.put_goals(goals, count).cells.len() <= usize::MAX,
        ensures
            self.put_goals(goals, count).shaped(base),
            grown(self.cells, self.put_goals(goals, count).cells),
            filled(
                self.put_goals(goals, count).cells,
                self.cells.len() as int,
                self.put_goals(goals, count).cells.len() as int,
            ),
            forall|j: int|
                0 <= j < count ==> self.cells.len() <= (#[trigger] self.put_goals(
                    goals,
                    j as nat,
                )).cells.len() < self.put_goals(goals, count).cells.len() && block_fits(
                    self.put_goals(goals, count).cells,
                    self.put_goals(goals, j as nat).cells.len() as int,
                ),
        decreases count,
    {
        if count > 0 {
            let before = self.put_goals(goals, (count - 1) as nat);
            let done = before.put_goal(goals[count - 1]);
            before.lemma_put_goal_keeps(goals[count - 1]);
            self.lemma_put_goals_shaped(goals, (count - 1) as nat, base);
            before.lemma_put_goal_shaped(goals[count - 1], base);
            lemma_grown_chains(self.cells, before.cells, done.cells);
            assert forall|at: int| self.cells.len() <= at < done.cells.len() implies (
            #[trigger] done.cells[at]).tag != HeapTag::Uninitialized by {
                if at < before.cells.len() {
                    assert(done.cells[at] == before.cells[at]);
                    assert(before.cells[at].tag != HeapTag::Uninitialized);
                }
            }
            assert forall|j: int| 0 <= j < count implies self.cells.len() <= (
            #[trigger] self.put_goals(goals, j as nat)).cells.len() < done.cells.len()
                && block_fits(done.cells, self.put_goals(goals, j as nat).cells.len() as int) by {
                if j < count - 1 {
                    lemma_grown_keeps_block(
                        before.cells,
                        done.cells,
                        self.put_goals(goals, j as nat).cells.len() as int,
                    );
                }
            }
        } else {
            assert(grown(self.cells, self.cells));
        }
    }

    /// A clause is laid out with every cell written and no cell pointing
    /// out of it; its head and each of its goals is a block that lies within
    /// the heap; and the heap stays settled.
    pub proof fn lemma_put_clause_shaped(self, clause: Clause)
        requires
            self.settled(),
            self.put_clause(clause).cells.len() <= usize::MAX,
        ensures
            self.put_clause(clause).settled(),
            grown(self.cells, self.put_clause(clause).cells),
            enclosed(
                self.put_clause(clause).cells,
                self.cells.len() as int,
                self.put_clause(clause).cells.len() as int,
            ),
            filled(
                self.put_clause(clause).cells,
                self.cells.len() as int,
                self.put_clause(clause).cells.len() as int,
            ),
            forall|j: int|
                0 <= j < self.describe_clause(clause).terms.len() ==> {
                    let term = #[trigger] self.describe_clause(clause).terms[j];
                    &&& term.tag == HeapTag::Reference
                    &&& self.cells.len() <= term.data < self.put_clause(clause).cells.len()
                    &&& block_fits(self.put_clause(clause).cells, term.data as int)
                },
    {
        let base = self.cells.len() as int;
        let scope = self.forget_variables();
        let head_done = scope.put_goal(clause.head);
        let done = head_done.put_goals(clause.body@, clause.body@.len());
        assert(done == self.put_clause(clause));
        scope.lemma_put_goal_keeps(clause.head);
        head_done.lemma_put_goals_keeps(clause.body@, clause.body@.len());
        assert(scope.shaped(base));
        scope.lemma_put_goal_shaped(clause.head, base);
        head_done.lemma_put_goals_shaped(clause.body@, clause.body@.len(), base);
        lemma_grown_chains(self.cells, head_done.cells, done.cells);
        lemma_grown_keeps_block(head_done.cells, done.cells, base);
        assert forall|at: int| base <= at < done.cells.len() implies (#[trigger] done.cells[at]).tag
            != HeapTag::Uninitialized by {
            if at < head_done.cells.len() {
                assert(done.cells[at] == head_done.cells[at]);
                assert(head_done.cells[at].tag != HeapTag::Uninitialized);
            }
        }
        let terms = self.describe_clause(clause).terms;
        assert forall|j: int| 0 <= j < terms.len() implies {
            let term = #[trigger] terms[j];
            &&& term.tag == HeapTag::Reference
            &&& base <= term.data < done.cells.len()
            &&& block_fits(done.cells, term.data as int)
        } by {
            if j > 0 {
                let start = head_done.put_goals(clause.body@, (j - 1) as nat);
                assert(head_done.goal_references(clause.body@)[j - 1] == cell(
                    HeapTag::Reference,
                    start.cells.len() as int,
                ));
                assert(terms[j] == head_done.goal_references(clause.body@)[j - 1]);
            }
        }
    }

    /// A query is laid out with every cell written and no cell pointing out
    /// of it; each of its goals is a block that lies within the heap; and the
    /// heap stays settled.
    pub proof fn lemma_put_query_shaped(self, query: Query)
        requires
            self.settled(),
            self.put_query(query).cells.len() <= usize::MAX,
        ensures
            self.put_query(query).settled(),
            grown(self.cells, self.put_query(query).cells),
            enclosed(
                self.put_query(query).cells,
                self.cells.len() as int,
                self.put_query(query).cells.len() as int,
            ),
            filled(
                self.put_query(query).cells,
                self.cells.len() as int,
                self.put_query(query).cells.len() as int,
            ),
            forall|j: int|
                0 <= j < self.describe_query(query).terms.len() ==> {
                    let term = #[trigger] self.describe_query(query).terms[j];
                    &&& term.tag == HeapTag::Reference
                    &&& self.cells.len() <= term.data < self.put_query(query).cells.len()
                    &&& block_fits(self.put_query(query).cells, term.data as int)
                },
    {
        let base = self.cells.len() as int;
        let scope = self.forget_variables();
        let goals = query.sub_queries@;
        let done = scope.put_goals(goals, goals.len());
        scope.lemma_put_goals_keeps(goals, goals.len());
        assert(scope.shaped(base));
        scope.lemma_put_goals_shaped(goals, goals.len(), base);
        let terms = self.describe_query(query).terms;
        assert forall|j: int| 0 <= j < terms.len() implies {
            let term = #[trigger] terms[j];
            &&& term.tag == HeapTag::Reference
            &&& base <= term.data < done.cells.len()
            &&& block_fits(done.cells, term.data as int)
        } by {
            let start = scope.put_goals(goals, j as nat);
            assert(terms[j] == cell(HeapTag::Reference, start.cells.len() as int));
        }
    }

    /// Clauses laid out one after another leave the heap settled, and each
    /// of them as it was laid out: every cell written, no cell pointing out
    /// of the clause, its head and goals blocks that lie within the heap.
    pub proof fn lemma_put_clauses_shaped(self, clauses: Seq<Clause>, count: nat)
        requires
            self.settled(),
            count <= clauses.len(),
            self.put_clauses(clauses, count).cells.len() <= usize::MAX,
        ensures
            self.put_clauses(clauses, count).settled(),
            grown(self.cells, self.put_clauses(clauses, count).cells),
            forall|k: int|
                0 <= k < count ==> {
                    let record = #[trigger] self.describe_clauses(clauses)[k];
                    let cells = self.put_clauses(clauses, count).cells;
                    &&& record.base + record.length <= cells.len()
                    &&& enclosed(cells, record.base as int, record.base + record.length)
                    &&& filled(cells, record.base as int, record.base + record.length)
                    &&& forall|j: int|
                        0 <= j < record.terms.len() ==> {
                            let term = #[trigger] record.terms[j];
                            &&& term.tag == HeapTag::Reference
                            &&& record.base <= term.data < record.base + record.length
                            &&& block_fits(cells, term.data as int)
                        }
                },
        decreases count,
    {
        if count > 0 {
            let before = self.put_clauses(clauses, (count - 1) as nat);
            let clause = clauses[count - 1];
            let done = before.put_clause(clause);
            before.lemma_put_clause_keeps(clause);
            self.lemma_put_clauses_shaped(clauses, (count - 1) as nat);
            before.lemma_put_clause_shaped(clause);
            lemma_grown_chains(self.cells, before.cells, done.cells);
            assert forall|k: int| 0 <= k < count implies {
                let record = #[trigger] self.describe_clauses(clauses)[k];
                let cells = done.cells;
                &&& record.base + record.length <= cells.len()
                &&& enclosed(cells, record.base as int, record.base + record.length)
                &&& filled(cells, record.base as int, record.base + record.length)
                &&& forall|j: int|
                    0 <= j < record.terms.len() ==> {
                        let term = #[trigger] record.terms[j];
                        &&& term.tag == HeapTag::Reference
                        &&& record.base <= term.data < record.base + record.length
                        &&& block_fits(cells, term.data as int)
                    }
            } by {
                let record = self.describe_clauses(clauses)[k];
                if k < count - 1 {
                    lemma_grown_keeps_enclosed(
                        before.cells,
                        done.cells,
                        record.base as int,
                        record.base + record.length,
                    );
                    assert forall|j: int| 0 <= j < record.terms.len() implies {
                        let term = #[trigger] record.terms[j];
                        &&& term.tag == HeapTag::Reference
                        &&& record.base <= term.data < record.base + record.length
                        &&& block_fits(done.cells, term.data as int)
                    } by {
                        lemma_grown_keeps_block(
                            before.cells,
                            done.cells,
                            record.terms[j].data as int,
                        );
                    }
                } else {
                    assert(record == before.describe_clause(clause));
                }
            }
        } else {
            assert(grown(self.cells, self.cells));
        }
    }
}

} // verus!
