//! What holds of every layout: laying out more terms never disturbs what is
//! there, names keep their ids, and variables keep their cells for the
//! length of a clause.

use vstd::prelude::*;
use crate::ast::{Clause, CompoundTerm, Query, SimpleTerm, Term};
use crate::heap::HeapTag;
use crate::layout::{cell, Layout};
use crate::symbols::{interned_id, interned_names};

verus! {

impl Layout {
    /// Whether `later` continues this state: the cells below `boundary` are
    /// as they were, no cell is gone, every name has kept its id, and every
    /// variable in scope has kept its cell.
    pub open spec fn kept_by(self, later: Layout, boundary: int) -> bool {
        &&& self.cells.len() <= later.cells.len()
        &&& forall|i: int| 0 <= i < boundary && i < self.cells.len() ==> later.cells[i] == self.cells[i]
        &&& self.symbols.is_prefix_of(later.symbols)
        &&& self.symbols.no_duplicates() ==> later.symbols.no_duplicates()
        &&& forall|name: Seq<char>| #[trigger]
            self.variables.contains_key(name) ==> later.variables.contains_key(name)
                && later.variables[name] == self.variables[name]
    }

    /// Interning a name keeps every id and leaves no name twice.
    pub proof fn lemma_intern_keeps(names: Seq<Seq<char>>, name: Seq<char>)
        ensures
            names.is_prefix_of(interned_names(names, name)),
            names.no_duplicates() ==> interned_names(names, name).no_duplicates(),
            interned_names(names, name).contains(name),
            0 <= interned_id(names, name) < interned_names(names, name).len(),
            interned_names(names, name)[interned_id(names, name)] == name,
    {
        if names.contains(name) {
            let i = names.index_of(name);
            assert(0 <= i < names.len() && names[i] == name);
        } else {
            let after = names.push(name);
            assert(after[names.len() as int] == name);
            assert(names =~= after.subrange(0, names.len() as int));
        }
    }

    /// Writing an atom or variable into a cell changes that cell alone.
    pub proof fn lemma_put_simple_keeps(self, term: SimpleTerm, index: int)
        requires
            0 <= index < self.cells.len(),
        ensures
            self.kept_by(self.put_simple(term, index), index),
            self.put_simple(term, index).cells.len() == self.cells.len(),
            forall|i: int|
                0 <= i < self.cells.len() && i != index ==> self.put_simple(term, index).cells[i]
                    == self.cells[i],
    {
        match term {
            SimpleTerm::Atom(name) => {
                Self::lemma_intern_keeps(self.symbols, name@);
            },
            SimpleTerm::Variable(name) => {},
        }
    }

    /// What continues a state that continues this one, continues this one.
    pub proof fn lemma_kept_by_chains(
        self,
        middle: Layout,
        later: Layout,
        first: int,
        second: int,
        boundary: int,
    )
        requires
            self.kept_by(middle, first),
            middle.kept_by(later, second),
            boundary <= first,
            boundary <= second,
        ensures
            self.kept_by(later, boundary),
    {
        assert forall|name: Seq<char>| #[trigger] self.variables.contains_key(name) implies {
            later.variables.contains_key(name) && later.variables[name] == self.variables[name]
        } by {
            assert(middle.variables.contains_key(name));
        }
    }

    /// A compound term is laid out above everything that is there, and
    /// takes at least its own block.
    pub proof fn lemma_put_compound_keeps(self, term: CompoundTerm)
        ensures
            self.kept_by(self.put_compound(term), self.cells.len() as int),
            self.put_compound(term).cells.len() >= self.cells.len() + 2 + term.parameters@.len(),
            self.put_compound(term).cells[self.cells.len() as int] == cell(
                HeapTag::Arity,
                term.parameters@.len() as int,
            ),
        decreases term, 0nat,
    {
        let start = self.cells.len() as int;
        let count = term.parameters@.len();
        let reserved = self.reserve(2 + count);
        let headed = reserved.store(start, cell(HeapTag::Arity, count as int));
        let named = headed.put_simple(term.name, start + 1);
        headed.lemma_put_simple_keeps(term.name, start + 1);
        assert(self.kept_by(headed, start));
        self.lemma_kept_by_chains(headed, named, start, start + 1, start);
        named.lemma_put_parameters_keeps(term.parameters@, start + 2, count);
        self.lemma_kept_by_chains(
            named,
            named.put_parameters(term.parameters@, start + 2, count),
            start,
            start + 2,
            start,
        );
    }

    /// Parameters are written to their own cells and above everything that
    /// is there: no cell below the first of them changes.
    pub proof fn lemma_put_parameters_keeps(self, parameters: Seq<Term>, first: int, count: nat)
        requires
            0 <= first,
            count <= parameters.len(),
            first + count <= self.cells.len(),
        ensures
            self.kept_by(self.put_parameters(parameters, first, count), first),
        decreases parameters, count,
    {
        if count > 0 {
            let before = self.put_parameters(parameters, first, (count - 1) as nat);
            self.lemma_put_parameters_keeps(parameters, first, (count - 1) as nat);
            let slot = first + count - 1;
            match parameters[count - 1] {
                Term::Simple(simple) => {
                    before.lemma_put_simple_keeps(simple, slot);
                    self.lemma_kept_by_chains(
                        before,
                        before.put_simple(simple, slot),
                        first,
                        slot,
                        first,
                    );
                },
                Term::Compound(compound) => {
                    before.lemma_put_compound_keeps(compound);
                    let nested = before.put_compound(compound);
                    let linked = nested.store(
                        slot,
                        cell(HeapTag::Reference, before.cells.len() as int),
                    );
                    assert(nested.kept_by(linked, slot));
                    before.lemma_kept_by_chains(
                        nested,
                        linked,
                        before.cells.len() as int,
                        slot,
                        first,
                    );
                    self.lemma_kept_by_chains(before, linked, first, first, first);
                },
            }
        }
    }

    /// A term is laid out above everything that is there.
    pub proof fn lemma_put_term_keeps(self, term: Term)
        ensures
            self.kept_by(self.put_term(term), self.cells.len() as int),
            self.put_term(term).cells.len() > self.cells.len(),
            term is Compound ==> self.put_term(term).cells.len() >= self.cells.len() + 2,
    {
        match term {
            Term::Compound(compound) => {
                self.lemma_put_compound_keeps(compound);
            },
            Term::Simple(simple) => {
                let start = self.cells.len() as int;
                self.reserve(1).lemma_put_simple_keeps(simple, start);
                assert(self.kept_by(self.reserve(1), start));
                self.lemma_kept_by_chains(
                    self.reserve(1),
                    self.put_term(term),
                    start,
                    start,
                    start,
                );
            },
        }
    }

    /// A head or goal is laid out above everything that is there, starts
    /// with an `Arity` cell, and takes at least two cells.
    pub proof fn lemma_put_goal_keeps(self, term: Term)
        ensures
            self.kept_by(self.put_goal(term), self.cells.len() as int),
            self.put_goal(term).cells.len() >= self.cells.len() + 2,
            self.put_goal(term).cells[self.cells.len() as int].tag == HeapTag::Arity,
    {
        let start = self.cells.len() as int;
        match term {
            Term::Simple(_) => {
                let wrapped = self.put_wrapper();
                assert(self.kept_by(wrapped, start));
                wrapped.lemma_put_term_keeps(term);
                self.lemma_kept_by_chains(wrapped, wrapped.put_term(term), start, start + 1, start);
            },
            Term::Compound(compound) => {
                self.lemma_put_term_keeps(term);
                self.lemma_put_compound_keeps(compound);
            },
        }
    }

    /// Goals are laid out above everything that is there, each above the
    /// one before.
    pub proof fn lemma_put_goals_keeps(self, goals: Seq<Term>, count: nat)
        requires
            count <= goals.len(),
        ensures
            self.kept_by(self.put_goals(goals, count), self.cells.len() as int),
            self.put_goals(goals, count).cells.len() >= self.cells.len() + 2 * count,
        decreases count,
    {
        if count > 0 {
            let before = self.put_goals(goals, (count - 1) as nat);
            self.lemma_put_goals_keeps(goals, (count - 1) as nat);
            before.lemma_put_goal_keeps(goals[count - 1]);
            self.lemma_kept_by_chains(
                before,
                before.put_goal(goals[count - 1]),
                self.cells.len() as int,
                before.cells.len() as int,
                self.cells.len() as int,
            );
        }
    }

    /// A clause is laid out above everything that is there.
    pub proof fn lemma_put_clause_keeps(self, clause: Clause)
        ensures
            self.forget_variables().kept_by(self.put_clause(clause), self.cells.len() as int),
            self.put_clause(clause).cells.len() >= self.cells.len() + 2,
    {
        let scope = self.forget_variables();
        let head_done = scope.put_goal(clause.head);
        scope.lemma_put_goal_keeps(clause.head);
        head_done.lemma_put_goals_keeps(clause.body@, clause.body@.len());
        scope.lemma_kept_by_chains(
            head_done,
            self.put_clause(clause),
            self.cells.len() as int,
            head_done.cells.len() as int,
            self.cells.len() as int,
        );
    }

    /// A query is laid out above everything that is there.
    pub proof fn lemma_put_query_keeps(self, query: Query)
        ensures
            self.forget_variables().kept_by(self.put_query(query), self.cells.len() as int),
    {
        self.forget_variables().lemma_put_goals_keeps(
            query.sub_queries@,
            query.sub_queries@.len(),
        );
    }

    /// Clauses are laid out above everything that is there: cells and
    /// names are kept, the variable scope is not.
    pub proof fn lemma_put_clauses_keeps(self, clauses: Seq<Clause>, count: nat)
        requires
            count <= clauses.len(),
        ensures
            self.forget_variables().kept_by(
                self.put_clauses(clauses, count).forget_variables(),
                self.cells.len() as int,
            ),
        decreases count,
    {
        if count > 0 {
            let before = self.put_clauses(clauses, (count - 1) as nat);
            self.lemma_put_clauses_keeps(clauses, (count - 1) as nat);
            before.lemma_put_clause_keeps(clauses[count - 1]);
            let after = before.put_clause(clauses[count - 1]);
            assert(before.forget_variables().kept_by(
                after.forget_variables(),
                before.cells.len() as int,
            ));
            self.forget_variables().lemma_kept_by_chains(
                before.forget_variables(),
                after.forget_variables(),
                self.cells.len() as int,
                before.cells.len() as int,
                self.cells.len() as int,
            );
        }
    }

    /// Laying out queries never shortens the heap.
    pub proof fn lemma_put_queries_keeps_length(self, queries: Seq<Query>, count: nat)
        requires
            count <= queries.len(),
        ensures
            self.cells.len() <= self.put_queries(queries, count).cells.len(),
            self.symbols.is_prefix_of(self.put_queries(queries, count).symbols),
        decreases count,
    {
        if count > 0 {
            let before = self.put_queries(queries, (count - 1) as nat);
            self.lemma_put_queries_keeps_length(queries, (count - 1) as nat);
            before.lemma_put_query_keeps(queries[count - 1]);
        }
    }

    /// A fact whose head is an atom takes exactly two cells: an `Arity` cell
    /// with count one, and a `Constant` with the id of the atom.
    pub proof fn lemma_atom_fact_takes_two_cells(self, clause: Clause, name: String)
        requires
            clause.head == Term::Simple(SimpleTerm::Atom(name)),
            clause.body@.len() == 0,
        ensures
            self.put_clause(clause).cells == self.cells + seq![
                cell(HeapTag::Arity, 1),
                cell(HeapTag::Constant, interned_id(self.symbols, name@)),
            ],
            self.put_clause(clause).symbols == interned_names(self.symbols, name@),
    {
        assert(self.put_clause(clause).cells =~= self.cells + seq![
            cell(HeapTag::Arity, 1),
            cell(HeapTag::Constant, interned_id(self.symbols, name@)),
        ]);
    }

    /// An atom gets the same id wherever it stands in a compilation: once it
    /// has been written at `first`, the same text written at `second` in any
    /// state that continues that one gives the same cell.
    pub proof fn lemma_same_atom_same_id(
        self,
        name: String,
        first: int,
        later: Layout,
        boundary: int,
        again: String,
        second: int,
    )
        requires
            self.symbols.no_duplicates(),
            0 <= first < self.cells.len(),
            self.put_simple(SimpleTerm::Atom(name), first).kept_by(later, boundary),
            0 <= second < later.cells.len(),
            again@ == name@,
        ensures
            later.put_simple(SimpleTerm::Atom(again), second).cells[second] == self.put_simple(
                SimpleTerm::Atom(name),
                first,
            ).cells[first],
            later.put_simple(SimpleTerm::Atom(again), second).symbols == later.symbols,
    {
        let written = self.put_simple(SimpleTerm::Atom(name), first);
        Self::lemma_intern_keeps(self.symbols, name@);
        let id = interned_id(self.symbols, name@);
        assert(written.symbols[id] == name@);
        assert(later.symbols[id] == name@);
        assert(later.symbols.contains(name@));
        let found = later.symbols.index_of(name@);
        assert(0 <= found < later.symbols.len() && later.symbols[found] == name@);
        assert(found == id);
    }

    /// The first occurrence of a variable in a clause becomes a `Variable`
    /// that names its own cell. A later occurrence in the same clause, in any
    /// state that continues that one, becomes a `Unify` that names the cell
    /// of the first.
    pub proof fn lemma_variable_occurrences(
        self,
        name: String,
        first: int,
        later: Layout,
        boundary: int,
        again: String,
        second: int,
    )
        requires
            !self.variables.contains_key(name@),
            0 <= first < self.cells.len() <= usize::MAX,
            self.put_simple(SimpleTerm::Variable(name), first).kept_by(later, boundary),
            0 <= second < later.cells.len(),
            again@ == name@,
        ensures
            self.put_simple(SimpleTerm::Variable(name), first).cells[first] == cell(
                HeapTag::Variable,
                first,
            ),
            later.put_simple(SimpleTerm::Variable(again), second).cells[second] == cell(
                HeapTag::Unify,
                first,
            ),
    {
        let written = self.put_simple(SimpleTerm::Variable(name), first);
        assert(written.variables.contains_key(name@));
    }

    /// The variables of one clause are unrelated to those of any other: how
    /// a clause is laid out does not depend on the scope that was there.
    pub proof fn lemma_clause_has_its_own_scope(
        self,
        variables: Map<Seq<char>, usize>,
        clause: Clause,
    )
        ensures
            (Layout { variables, ..self }).put_clause(clause) == self.put_clause(clause),
            (Layout { variables, ..self }).describe_clause(clause) == self.describe_clause(clause),
    {
        assert((Layout { variables, ..self }).forget_variables() =~= self.forget_variables());
    }

    /// Of the descriptor of a clause: the head starts at the base and ends
    /// at the neck, within the cells of the clause, and the first of the
    /// terms refers to the base. The neck counts from the start of the heap
    /// and the length from the base, so the neck is within the length just
    /// when the base is no more than the cells of the body.
    pub proof fn lemma_clause_descriptor_bounds(self, clause: Clause)
        requires
            self.put_clause(clause).cells.len() <= usize::MAX,
        ensures
            ({
                let described = self.describe_clause(clause);
                let body_cells = self.put_clause(clause).cells.len() - described.neck;
                &&& described.base == self.cells.len()
                &&& described.base + 2 <= described.neck <= described.base + described.length
                &&& described.base + described.length == self.put_clause(clause).cells.len()
                &&& described.terms.len() == 1 + clause.body@.len()
                &&& described.terms[0] == cell(HeapTag::Reference, described.base as int)
                &&& described.neck <= described.length <==> described.base <= body_cells
            }),
    {
        let scope = self.forget_variables();
        let head_done = scope.put_goal(clause.head);
        scope.lemma_put_goal_keeps(clause.head);
        head_done.lemma_put_goals_keeps(clause.body@, clause.body@.len());
    }
}

} // verus!
