//! The abstract syntax of a program: clauses and queries over terms.

use vstd::prelude::*;

verus! {

/// An atom or a variable, by its name.
#[derive(Debug, PartialEq)]
pub enum SimpleTerm {
    Atom(String),
    Variable(String),
}

/// A functor applied to parameters.
#[derive(Debug, PartialEq)]
pub struct CompoundTerm {
    pub name: SimpleTerm,
    pub parameters: Vec<Term>,
}

/// A term: an atom, a variable, or a functor applied to parameters.
#[derive(Debug, PartialEq)]
pub enum Term {
    Compound(CompoundTerm),
    Simple(SimpleTerm),
}

/// A head that holds if every goal of the body holds. A fact has no body.
#[derive(Debug, PartialEq)]
pub struct Clause {
    pub head: Term,
    pub body: Vec<Term>,
}

/// A conjunction of goals to prove.
#[derive(Debug, PartialEq)]
pub struct Query {
    pub sub_queries: Vec<Term>,
}

/// Clauses and queries, each in source order.
#[derive(Debug, PartialEq)]
pub struct Program {
    pub clauses: Vec<Clause>,
    pub queries: Vec<Query>,
}

/// An atom or a variable, its name as plain characters.
pub enum SimpleTermView {
    Atom(Seq<char>),
    Variable(Seq<char>),
}

/// A functor applied to parameters, as plain values.
pub struct CompoundTermView {
    pub name: SimpleTermView,
    pub parameters: Seq<TermView>,
}

/// A term, as plain values.
pub enum TermView {
    Compound(CompoundTermView),
    Simple(SimpleTermView),
}

/// A clause, as plain values.
pub struct ClauseView {
    pub head: TermView,
    pub body: Seq<TermView>,
}

impl View for SimpleTerm {
    type V = SimpleTermView;

    open spec fn view(&self) -> SimpleTermView {
        match self {
            SimpleTerm::Atom(name) => SimpleTermView::Atom(name@),
            SimpleTerm::Variable(name) => SimpleTermView::Variable(name@),
        }
    }
}

/// The term as plain values.
pub open spec fn term_view(term: Term) -> TermView
    decreases term, 0nat,
{
    match term {
        Term::Simple(simple) => TermView::Simple(simple@),
        Term::Compound(compound) => TermView::Compound(
            CompoundTermView {
                name: compound.name@,
                parameters: terms_view(compound.parameters@, compound.parameters@.len()),
            },
        ),
    }
}

/// The first `count` of `terms` as plain values.
pub open spec fn terms_view(terms: Seq<Term>, count: nat) -> Seq<TermView>
    decreases terms, count,
{
    if count == 0 || count > terms.len() {
        Seq::empty()
    } else {
        terms_view(terms, (count - 1) as nat).push(term_view(terms[count - 1]))
    }
}

/// The views of terms stand in the order of the terms, one for each.
pub proof fn lemma_terms_view(terms: Seq<Term>, count: nat)
    requires
        count <= terms.len(),
    ensures
        terms_view(terms, count).len() == count,
        forall|i: int| 0 <= i < count ==> #[trigger] terms_view(terms, count)[i] == term_view(terms[i]),
    decreases count,
{
    if count > 0 {
        lemma_terms_view(terms, (count - 1) as nat);
    }
}

/// Only the terms that are counted matter to their views.
pub proof fn lemma_terms_view_of_prefix(terms: Seq<Term>, longer: Seq<Term>, count: nat)
    requires
        count <= terms.len() <= longer.len(),
        forall|i: int| 0 <= i < count ==> terms[i] == longer[i],
    ensures
        terms_view(terms, count) == terms_view(longer, count),
    decreases count,
{
    if count > 0 {
        lemma_terms_view_of_prefix(terms, longer, (count - 1) as nat);
    }
}

impl View for Term {
    type V = TermView;

    open spec fn view(&self) -> TermView {
        term_view(*self)
    }
}

impl View for Clause {
    type V = ClauseView;

    open spec fn view(&self) -> ClauseView {
        ClauseView { head: self.head@, body: terms_view(self.body@, self.body@.len()) }
    }
}

impl Program {
    /// A program without clauses and queries.
    pub fn new() -> (program: Self)
        ensures
            program.clauses@.len() == 0,
            program.queries@.len() == 0,
    {
        Program { clauses: Vec::new(), queries: Vec::new() }
    }

    /// Adds a clause after the clauses that are there.
    pub fn push_clause(&mut self, clause: Clause)
        ensures
            final(self).clauses@ == old(self).clauses@.push(clause),
            final(self).queries@ == old(self).queries@,
    {
        self.clauses.push(clause);
    }

    /// Adds a query after the queries that are there.
    pub fn push_query(&mut self, query: Query)
        ensures
            final(self).queries@ == old(self).queries@.push(query),
            final(self).clauses@ == old(self).clauses@,
    {
        self.queries.push(query);
    }
}

} // verus!
