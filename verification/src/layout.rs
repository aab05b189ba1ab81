//! How terms are laid out on the heap, stated as a function from what has
//! been compiled so far to what is there afterwards.
//!
//! Every term starts with an `Arity` cell that holds its argument count. A
//! compound term with `k` parameters fills `2 + k` consecutive cells: the
//! arity, the functor, and one cell per parameter. A parameter that is itself
//! compound gets a block of its own further up, and its cell in the parent
//! holds a `Reference` to that block. An atom or variable that stands alone as
//! a head or goal is wrapped: an `Arity` cell with count one, followed by the
//! cell of the term itself.

use vstd::prelude::*;
use crate::ast::{Clause, CompoundTerm, Query, SimpleTerm, Term};
use crate::block::subterms;
use crate::heap::{HeapEntry, HeapIndex, HeapTag};
use crate::symbols::{interned_id, interned_names};
use crate::variables::variables_of;

verus! {

/// The state that compilation threads through a program: the heap cells, the
/// interned names, and the first cell of each variable of the clause at hand.
#[verifier::ext_equal]
pub struct Layout {
    pub cells: Seq<HeapEntry>,
    pub symbols: Seq<Seq<char>>,
    pub variables: Map<Seq<char>, HeapIndex>,
}

/// What a clause descriptor records, as plain values.
#[verifier::ext_equal]
pub struct ClauseRecord {
    pub base: HeapIndex,
    pub length: HeapIndex,
    pub neck: HeapIndex,
    pub terms: Seq<HeapEntry>,
    pub head_subterms: Seq<HeapEntry>,
}

/// What a query descriptor records, as plain values.
#[verifier::ext_equal]
pub struct QueryRecord {
    pub base: HeapIndex,
    pub length: HeapIndex,
    pub terms: Seq<HeapEntry>,
}

/// A cell with the given tag whose data is `data`.
pub open spec fn cell(tag: HeapTag, data: int) -> HeapEntry {
    HeapEntry { tag, data: data as usize }
}

/// The first `count` of `names` that are in scope, each with the cell of
/// its variable.
pub open spec fn located(
    names: Seq<Seq<char>>,
    variables: Map<Seq<char>, HeapIndex>,
    count: nat,
) -> Seq<(Seq<char>, HeapIndex)>
    decreases count,
{
    if count == 0 || count > names.len() {
        Seq::empty()
    } else {
        let before = located(names, variables, (count - 1) as nat);
        if variables.contains_key(names[count - 1]) {
            before.push((names[count - 1], variables[names[count - 1]]))
        } else {
            before
        }
    }
}

impl Layout {
    /// The state before anything is compiled: no cell, no name, no variable.
    pub open spec fn empty() -> Layout {
        Layout { cells: Seq::empty(), symbols: Seq::empty(), variables: Map::empty() }
    }

    /// The given number of fresh cells appended.
    pub open spec fn reserve(self, size: nat) -> Layout {
        Layout { cells: self.cells + Seq::new(size, |i: int| HeapEntry::empty()), ..self }
    }

    /// One cell overwritten.
    pub open spec fn store(self, index: int, entry: HeapEntry) -> Layout {
        Layout { cells: self.cells.update(index, entry), ..self }
    }

    /// The same state at the start of a new variable scope.
    pub open spec fn forget_variables(self) -> Layout {
        Layout { variables: Map::empty(), ..self }
    }

    /// An atom or variable written to the cell at `index`. An atom becomes a
    /// `Constant` with its interned id. The first occurrence of a variable
    /// becomes a `Variable` that names its own cell, and is remembered; a
    /// later occurrence becomes a `Unify` that names the first.
    pub open spec fn put_simple(self, term: SimpleTerm, index: int) -> Layout {
        match term {
            SimpleTerm::Atom(name) => Layout {
                cells: self.cells.update(
                    index,
                    cell(HeapTag::Constant, interned_id(self.symbols, name@)),
                ),
                symbols: interned_names(self.symbols, name@),
                variables: self.variables,
            },
            SimpleTerm::Variable(name) => if self.variables.contains_key(name@) {
                self.store(index, cell(HeapTag::Unify, self.variables[name@] as int))
            } else {
                Layout {
                    cells: self.cells.update(index, cell(HeapTag::Variable, index)),
                    symbols: self.symbols,
                    variables: self.variables.insert(name@, index as usize),
                }
            },
        }
    }

    /// A compound term appended as a block of its own, its nested compound
    /// parameters after it, depth first.
    pub open spec fn put_compound(self, term: CompoundTerm) -> Layout
        decreases term, 0nat,
    {
        let start = self.cells.len() as int;
        let count = term.parameters@.len();
        self.reserve(2 + count).store(start, cell(HeapTag::Arity, count as int)).put_simple(
            term.name,
            start + 1,
        ).put_parameters(term.parameters@, start + 2, count)
    }

    /// The first `count` of `parameters` written to the cells from `first`
    /// on, in order.
    pub open spec fn put_parameters(self, parameters: Seq<Term>, first: int, count: nat) -> Layout
        decreases parameters, count,
    {
        if count == 0 || count > parameters.len() {
            self
        } else {
            let before = self.put_parameters(parameters, first, (count - 1) as nat);
            let slot = first + count - 1;
            match parameters[count - 1] {
                Term::Simple(simple) => before.put_simple(simple, slot),
                Term::Compound(compound) => before.put_compound(compound).store(
                    slot,
                    cell(HeapTag::Reference, before.cells.len() as int),
                ),
            }
        }
    }

    /// A term appended: a compound as a block, an atom or variable as one
    /// cell.
    pub open spec fn put_term(self, term: Term) -> Layout {
        match term {
            Term::Compound(compound) => self.put_compound(compound),
            Term::Simple(simple) => self.reserve(1).put_simple(simple, self.cells.len() as int),
        }
    }

    /// An `Arity` cell with count one appended, to stand before an atom or
    /// variable.
    pub open spec fn put_wrapper(self) -> Layout {
        self.reserve(1).store(self.cells.len() as int, cell(HeapTag::Arity, 1))
    }

    /// A term that stands alone as a head or goal: a compound as it is, an
    /// atom or variable behind an `Arity` cell of its own.
    pub open spec fn put_goal(self, term: Term) -> Layout {
        match term {
            Term::Simple(_) => self.put_wrapper().put_term(term),
            Term::Compound(_) => self.put_term(term),
        }
    }

    /// The first `count` of `goals` appended, in order.
    pub open spec fn put_goals(self, goals: Seq<Term>, count: nat) -> Layout
        decreases count,
    {
        if count == 0 || count > goals.len() {
            self
        } else {
            self.put_goals(goals, (count - 1) as nat).put_goal(goals[count - 1])
        }
    }

    /// One `Reference` for each of `goals`, to where it starts when the goals
    /// are appended in order.
    pub open spec fn goal_references(self, goals: Seq<Term>) -> Seq<HeapEntry> {
        Seq::new(
            goals.len(),
            |j: int| cell(HeapTag::Reference, self.put_goals(goals, j as nat).cells.len() as int),
        )
    }

    /// The descriptor of `clause` when it is appended to this state.
    pub open spec fn describe_clause(self, clause: Clause) -> ClauseRecord {
        let head_done = self.forget_variables().put_goal(clause.head);
        let done = self.put_clause(clause);
        let base = self.cells.len() as int;
        ClauseRecord {
            base: base as usize,
            length: (done.cells.len() - base) as usize,
            neck: head_done.cells.len() as usize,
            terms: seq![cell(HeapTag::Reference, base)] + head_done.goal_references(clause.body@),
            head_subterms: subterms(done.cells, cell(HeapTag::Reference, base)),
        }
    }

    /// The descriptor of `query` when it is appended to this state.
    pub open spec fn describe_query(self, query: Query) -> QueryRecord {
        let done = self.put_query(query);
        let base = self.cells.len() as int;
        QueryRecord {
            base: base as usize,
            length: (done.cells.len() - base) as usize,
            terms: self.forget_variables().goal_references(query.sub_queries@),
        }
    }

    /// The variables of `query` when it is appended to this state: each by
    /// its name, with the cell of its first occurrence, in the order in which
    /// they are first met.
    pub open spec fn describe_variables(self, query: Query) -> Seq<(Seq<char>, HeapIndex)> {
        let names = variables_of(query.sub_queries@);
        located(names, self.put_query(query).variables, names.len())
    }

    /// The variables of each of `queries` when they are appended in order.
    pub open spec fn describe_all_variables(self, queries: Seq<Query>) -> Seq<
        Seq<(Seq<char>, HeapIndex)>,
    > {
        Seq::new(
            queries.len(),
            |j: int| self.put_queries(queries, j as nat).describe_variables(queries[j]),
        )
    }

    /// A clause appended: its head, then its body goals, in a variable scope
    /// of its own.
    pub open spec fn put_clause(self, clause: Clause) -> Layout {
        self.forget_variables().put_goal(clause.head).put_goals(
            clause.body@,
            clause.body@.len(),
        )
    }

    /// A query appended: its goals, in a variable scope of their own.
    pub open spec fn put_query(self, query: Query) -> Layout {
        self.forget_variables().put_goals(query.sub_queries@, query.sub_queries@.len())
    }

    /// The first `count` of `clauses` appended, in order.
    pub open spec fn put_clauses(self, clauses: Seq<Clause>, count: nat) -> Layout
        decreases count,
    {
        if count == 0 || count > clauses.len() {
            self
        } else {
            self.put_clauses(clauses, (count - 1) as nat).put_clause(clauses[count - 1])
        }
    }

    /// The descriptor of each of `clauses` when they are appended in order.
    pub open spec fn describe_clauses(self, clauses: Seq<Clause>) -> Seq<ClauseRecord> {
        Seq::new(
            clauses.len(),
            |j: int| self.put_clauses(clauses, j as nat).describe_clause(clauses[j]),
        )
    }

    /// The descriptor of each of `queries` when they are appended in order.
    pub open spec fn describe_queries(self, queries: Seq<Query>) -> Seq<QueryRecord> {
        Seq::new(
            queries.len(),
            |j: int| self.put_queries(queries, j as nat).describe_query(queries[j]),
        )
    }

    /// The first `count` of `queries` appended, in order.
    pub open spec fn put_queries(self, queries: Seq<Query>, count: nat) -> Layout
        decreases count,
    {
        if count == 0 || count > queries.len() {
            self
        } else {
            self.put_queries(queries, (count - 1) as nat).put_query(queries[count - 1])
        }
    }
}

} // verus!
