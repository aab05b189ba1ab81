//! The variables of a query are all found: each is in scope once the query
//! is laid out, and its cell is a cell of the query that holds an unbound
//! variable.

use vstd::prelude::*;
use crate::ast::{CompoundTerm, Query, SimpleTerm, Term};
use crate::heap::{HeapIndex, HeapTag};
use crate::layout::{cell, Layout, located};
use crate::variables::{note_simple, note_term, note_terms, variables_of};

verus! {

/// Whether every one of `names` is in scope.
pub open spec fn covers(variables: Map<Seq<char>, HeapIndex>, names: Seq<Seq<char>>) -> bool {
    forall|i: int| 0 <= i < names.len() ==> variables.contains_key(#[trigger] names[i])
}

impl Layout {
    /// A variable that has been written is in scope.
    pub proof fn lemma_put_simple_covers(self, simple: SimpleTerm, index: int, seen: Seq<Seq<char>>)
        requires
            0 <= index < self.cells.len(),
            covers(self.variables, seen),
        ensures
            covers(self.put_simple(simple, index).variables, note_simple(seen, simple)),
    {
        let after = self.put_simple(simple, index);
        let noted = note_simple(seen, simple);
        assert forall|i: int| 0 <= i < noted.len() implies after.variables.contains_key(
            #[trigger] noted[i],
        ) by {
            if i < seen.len() {
                assert(noted[i] == seen[i]);
                assert(self.variables.contains_key(seen[i]));
            }
        }
    }

    /// The variables of a compound term that has been laid out are in
    /// scope.
    pub proof fn lemma_put_compound_covers(self, term: CompoundTerm, seen: Seq<Seq<char>>)
        requires
            covers(self.variables, seen),
        ensures
            covers(self.put_compound(term).variables, note_term(seen, Term::Compound(term))),
        decreases term, 0nat,
    {
        let start = self.cells.len() as int;
        let count = term.parameters@.len();
        let headed = self.reserve(2 + count).store(start, cell(HeapTag::Arity, count as int));
        headed.lemma_put_simple_covers(term.name, start + 1, seen);
        let named = headed.put_simple(term.name, start + 1);
        named.lemma_put_parameters_covers(
            term.parameters@,
            start + 2,
            count,
            note_simple(seen, term.name),
        );
    }

    /// The variables of parameters that have been written are in scope.
    pub proof fn lemma_put_parameters_covers(
        self,
        parameters: Seq<Term>,
        first: int,
        count: nat,
        seen: Seq<Seq<char>>,
    )
        requires
            0 <= first,
            count <= parameters.len(),
            first + count <= self.cells.len(),
            covers(self.variables, seen),
        ensures
            covers(
                self.put_parameters(parameters, first, count).variables,
                note_terms(seen, parameters, count),
            ),
        decreases parameters, count,
    {
        if count > 0 {
            let before = self.put_parameters(parameters, first, (count - 1) as nat);
            let noted = note_terms(seen, parameters, (count - 1) as nat);
            let slot = first + count - 1;
            self.lemma_put_parameters_keeps(parameters, first, (count - 1) as nat);
            self.lemma_put_parameters_covers(parameters, first, (count - 1) as nat, seen);
            let after = self.put_parameters(parameters, first, count);
            assert(note_terms(seen, parameters, count) == note_term(noted, parameters[count - 1]));
            match parameters[count - 1] {
                Term::Simple(simple) => {
                    before.lemma_put_simple_covers(simple, slot, noted);
                    assert(after == before.put_simple(simple, slot));
                    assert(covers(after.variables, note_simple(noted, simple)));
                },
                Term::Compound(compound) => {
                    before.lemma_put_compound_covers(compound, noted);
                    let nested = before.put_compound(compound);
                    assert(after.variables == nested.variables);
                    assert(covers(after.variables, note_term(noted, Term::Compound(compound))));
                },
            }
        }
    }

    /// The variables of a head or goal that has been laid out are in
    /// scope.
    pub proof fn lemma_put_goal_covers(self, term: Term, seen: Seq<Seq<char>>)
        requires
            covers(self.variables, seen),
        ensures
            covers(self.put_goal(term).variables, note_term(seen, term)),
    {
        match term {
            Term::Simple(simple) => {
                let start = self.cells.len() as int;
                self.put_wrapper().reserve(1).lemma_put_simple_covers(simple, start + 1, seen);
            },
            Term::Compound(compound) => {
                self.lemma_put_compound_covers(compound, seen);
            },
        }
    }

    /// The variables of goals that have been laid out are in scope.
    pub proof fn lemma_put_goals_covers(self, goals: Seq<Term>, count: nat, seen: Seq<Seq<char>>)
        requires
            count <= goals.len(),
            covers(self.variables, seen),
        ensures
            covers(self.put_goals(goals, count).variables, note_terms(seen, goals, count)),
        decreases count,
    {
        if count > 0 {
            let before = self.put_goals(goals, (count - 1) as nat);
            self.lemma_put_goals_covers(goals, (count - 1) as nat, seen);
            before.lemma_put_goal_covers(
                goals[count - 1],
                note_terms(seen, goals, (count - 1) as nat),
            );
        }
    }

    /// Every variable of a query is found once the query is laid out, in
    /// the order in which the variables are first met; its cell is a cell
    /// of the query and holds an unbound variable.
    pub proof fn lemma_query_variables_are_located(self, query: Query)
        requires
            self.settled(),
            self.put_query(query).cells.len() <= usize::MAX,
        ensures
            ({
                let names = variables_of(query.sub_queries@);
                let found = self.describe_variables(query);
                let done = self.put_query(query);
                &&& found.len() == names.len()
                &&& forall|i: int|
                    0 <= i < found.len() ==> {
                        &&& (#[trigger] found[i]).0 == names[i]
                        &&& self.cells.len() <= found[i].1 < done.cells.len()
                        &&& done.cells[found[i].1 as int] == cell(
                            HeapTag::Variable,
                            found[i].1 as int,
                        )
                    }
            }),
    {
        let goals = query.sub_queries@;
        let names = variables_of(goals);
        let scope = self.forget_variables();
        let done = self.put_query(query);
        let base = self.cells.len() as int;
        scope.lemma_put_goals_covers(goals, goals.len(), Seq::empty());
        scope.lemma_put_goals_keeps(goals, goals.len());
        assert(scope.shaped(base));
        scope.lemma_put_goals_shaped(goals, goals.len(), base);
        lemma_located_all(names, done.variables, names.len());
        let found = self.describe_variables(query);
        assert forall|i: int| 0 <= i < found.len() implies {
            &&& (#[trigger] found[i]).0 == names[i]
            &&& base <= found[i].1 < done.cells.len()
            &&& done.cells[found[i].1 as int] == cell(HeapTag::Variable, found[i].1 as int)
        } by {
            assert(done.variables.contains_key(names[i]));
        }
    }
}

/// If every name is in scope, every name is found, with the cell of its
/// variable.
pub proof fn lemma_located_all(
    names: Seq<Seq<char>>,
    variables: Map<Seq<char>, HeapIndex>,
    count: nat,
)
    requires
        count <= names.len(),
        covers(variables, names),
    ensures
        located(names, variables, count).len() == count,
        forall|i: int|
            0 <= i < count ==> #[trigger] located(names, variables, count)[i] == (
                names[i],
                variables[names[i]],
            ),
    decreases count,
{
    if count > 0 {
        lemma_located_all(names, variables, (count - 1) as nat);
        assert(variables.contains_key(names[count - 1]));
    }
}

} // verus!
