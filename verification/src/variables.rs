//! The variables of a query: which they are, by name and in the order in
//! which they are first met.

use vstd::prelude::*;
use crate::ast::{CompoundTerm, SimpleTerm, Term};

verus! {

/// The names met so far, and after them the name of `simple` if it is a
/// variable that was not met.
pub open spec fn note_simple(seen: Seq<Seq<char>>, simple: SimpleTerm) -> Seq<Seq<char>> {
    match simple {
        SimpleTerm::Atom(_) => seen,
        SimpleTerm::Variable(name) => if seen.contains(name@) {
            seen
        } else {
            seen.push(name@)
        },
    }
}

/// The names met so far, and after them the names of the variables of
/// `term` that were not met, in the order in which the term is written.
pub open spec fn note_term(seen: Seq<Seq<char>>, term: Term) -> Seq<Seq<char>>
    decreases term, 0nat,
{
    match term {
        Term::Simple(simple) => note_simple(seen, simple),
        Term::Compound(compound) => note_terms(
            note_simple(seen, compound.name),
            compound.parameters@,
            compound.parameters@.len(),
        ),
    }
}

/// The names met so far, and after them the names of the variables of the
/// first `count` of `terms` that were not met.
pub open spec fn note_terms(seen: Seq<Seq<char>>, terms: Seq<Term>, count: nat) -> Seq<Seq<char>>
    decreases terms, count,
{
    if count == 0 || count > terms.len() {
        seen
    } else {
        note_term(note_terms(seen, terms, (count - 1) as nat), terms[count - 1])
    }
}

/// The names of the variables of `terms`, each once, in the order in which
/// they are first met.
pub open spec fn variables_of(terms: Seq<Term>) -> Seq<Seq<char>> {
    note_terms(Seq::empty(), terms, terms.len())
}

/// The names as plain values.
pub open spec fn names_view(names: Seq<String>) -> Seq<Seq<char>> {
    Seq::new(names.len(), |i: int| names[i]@)
}

/// Whether `name` is among `names`.
fn is_noted(names: &Vec<String>, name: &String) -> (found: bool)
    ensures
        found == names_view(names@).contains(name@),
{
    let mut i: usize = 0;
    while i < names.len()
        invariant
            i <= names@.len(),
            forall|j: int| 0 <= j < i ==> names_view(names@)[j] != name@,
        decreases names@.len() - i,
    {
        if names[i] == *name {
            assert(names_view(names@)[i as int] == name@);
            return true;
        }
        i += 1;
    }
    false
}

/// Adds the name of `simple` if it is a variable that was not met.
fn add_simple(names: &mut Vec<String>, simple: &SimpleTerm)
    ensures
        names_view(final(names)@) == note_simple(names_view(old(names)@), *simple),
{
    match simple {
        SimpleTerm::Atom(_) => {},
        SimpleTerm::Variable(name) => {
            if !is_noted(names, name) {
                names.push(name.clone());
                assert(names_view(names@) =~= names_view(old(names)@).push(name@));
            }
        },
    }
}

/// Adds the names of the variables of a compound term that were not met.
fn add_compound(names: &mut Vec<String>, compound: &CompoundTerm)
    ensures
        names_view(final(names)@) == note_term(
            names_view(old(names)@),
            Term::Compound(*compound),
        ),
    decreases compound,
{
    add_simple(names, &compound.name);
    let ghost named = names_view(names@);
    let mut i: usize = 0;
    while i < compound.parameters.len()
        invariant
            i <= compound.parameters@.len(),
            names_view(names@) == note_terms(named, compound.parameters@, i as nat),
        decreases compound.parameters@.len() - i,
    {
        let ghost before = names_view(names@);
        match &compound.parameters[i] {
            Term::Simple(simple) => {
                add_simple(names, simple);
                assert(compound.parameters@[i as int] == Term::Simple(*simple));
            },
            Term::Compound(inner) => {
                add_compound(names, inner);
                assert(compound.parameters@[i as int] == Term::Compound(*inner));
            },
        }
        assert(names_view(names@) == note_term(before, compound.parameters@[i as int]));
        i += 1;
    }
}

/// The names of the variables of `terms`, each once, in the order in which
/// they are first met.
pub fn variable_names(terms: &Vec<Term>) -> (names: Vec<String>)
    ensures
        names_view(names@) == variables_of(terms@),
{
    let mut names: Vec<String> = Vec::new();
    assert(names_view(names@) =~= Seq::<Seq<char>>::empty());
    let mut i: usize = 0;
    while i < terms.len()
        invariant
            i <= terms@.len(),
            names_view(names@) == note_terms(Seq::empty(), terms@, i as nat),
        decreases terms@.len() - i,
    {
        let ghost before = names_view(names@);
        match &terms[i] {
            Term::Simple(simple) => {
                add_simple(&mut names, simple);
                assert(terms@[i as int] == Term::Simple(*simple));
            },
            Term::Compound(compound) => {
                add_compound(&mut names, compound);
                assert(terms@[i as int] == Term::Compound(*compound));
            },
        }
        assert(names_view(names@) == note_term(before, terms@[i as int]));
        i += 1;
    }
    names
}

} // verus!
