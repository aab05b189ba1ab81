//! What holds of everything that is read: names are names, a variable is
//! told from an atom by its first character, and a compound term has at
//! least one argument.

use vstd::prelude::*;
use crate::ast::{SimpleTermView, TermView};
use crate::grammar::{
    after_blanks, after_name, is_blank, is_name_char, read_arguments, read_clause, read_goals,
    read_term, simple_of, starts_variable, word_and, word_if,
};

verus! {

/// Whether `name` can be written as a name: it is not empty, every
/// character of it may stand in a name, and it is none of the words `if` and
/// `and`.
pub open spec fn is_name(name: Seq<char>) -> bool {
    &&& name.len() > 0
    &&& forall|i: int| 0 <= i < name.len() ==> is_name_char(#[trigger] name[i])
    &&& name != word_if()
    &&& name != word_and()
}

/// Whether the atom or variable is one that can be written: its name is a
/// name, and it is a variable just if the name starts like one.
pub open spec fn simple_is_written(simple: SimpleTermView) -> bool {
    match simple {
        SimpleTermView::Atom(name) => is_name(name) && !starts_variable(name[0]),
        SimpleTermView::Variable(name) => is_name(name) && starts_variable(name[0]),
    }
}

/// Whether the term is one that can be written: its atoms and variables
/// are, and every compound term in it has at least one parameter.
pub open spec fn term_is_written(term: TermView) -> bool
    decreases term, 0nat,
{
    match term {
        TermView::Simple(simple) => simple_is_written(simple),
        TermView::Compound(compound) => simple_is_written(compound.name)
            && compound.parameters.len() > 0 && terms_are_written(
            compound.parameters,
            compound.parameters.len(),
        ),
    }
}

/// Whether the first `count` of `terms` can be written.
pub open spec fn terms_are_written(terms: Seq<TermView>, count: nat) -> bool
    decreases terms, count,
{
    count == 0 || count > terms.len() || (terms_are_written(terms, (count - 1) as nat)
        && term_is_written(terms[count - 1]))
}

/// Blanks are skipped forward, and not beyond the end.
pub proof fn lemma_after_blanks_bounds(text: Seq<char>, from: int, to: int)
    requires
        0 <= from <= to <= text.len(),
    ensures
        from <= after_blanks(text, from, to) <= to,
    decreases to - from,
{
    if from < to && is_blank(text[from]) {
        lemma_after_blanks_bounds(text, from + 1, to);
    }
}

/// A name ends at or after where it starts and not beyond the end, and
/// every character up to its end may stand in a name.
pub proof fn lemma_after_name_bounds(text: Seq<char>, from: int, to: int)
    requires
        0 <= from <= to <= text.len(),
    ensures
        from <= after_name(text, from, to) <= to,
        forall|i: int| from <= i < after_name(text, from, to) ==> is_name_char(#[trigger] text[i]),
    decreases to - from,
{
    if from < to && is_name_char(text[from]) {
        lemma_after_name_bounds(text, from + 1, to);
    }
}

/// A word that is scanned as a name and is none of `if` and `and` stands
/// for an atom or variable that can be written.
pub proof fn lemma_word_is_written(text: Seq<char>, from: int, to: int)
    requires
        0 <= from <= to <= text.len(),
        from < after_name(text, from, to),
        text.subrange(from, after_name(text, from, to)) != word_if(),
        text.subrange(from, after_name(text, from, to)) != word_and(),
    ensures
        simple_is_written(simple_of(text.subrange(from, after_name(text, from, to)))),
{
    lemma_after_name_bounds(text, from, to);
    let word = text.subrange(from, after_name(text, from, to));
    assert forall|i: int| 0 <= i < word.len() implies is_name_char(#[trigger] word[i]) by {
        assert(word[i] == text[from + i]);
    }
}

/// A term that is read can be written, and takes at least one character.
pub proof fn lemma_read_term_is_written(text: Seq<char>, from: int, to: int)
    requires
        0 <= from <= to <= text.len(),
        read_term(text, from, to) is Some,
    ensures
        term_is_written((read_term(text, from, to)->0).0),
        from < (read_term(text, from, to)->0).1 <= to,
    decreases to - from, 0nat,
{
    let start = after_blanks(text, from, to);
    lemma_after_blanks_bounds(text, from, to);
    let stop = after_name(text, start, to);
    lemma_after_name_bounds(text, start, to);
    lemma_word_is_written(text, start, to);
    lemma_read_arguments_are_written(text, stop, to);
}

/// Arguments that are read can be written.
pub proof fn lemma_read_arguments_are_written(text: Seq<char>, from: int, to: int)
    requires
        0 <= from <= to <= text.len(),
        read_arguments(text, from, to) is Some,
    ensures
        terms_are_written(
            (read_arguments(text, from, to)->0).0,
            (read_arguments(text, from, to)->0).0.len(),
        ),
        from <= (read_arguments(text, from, to)->0).1 <= to,
    decreases to - from, 1nat,
{
    let start = after_blanks(text, from, to);
    lemma_after_blanks_bounds(text, from, to);
    if start >= to {
    } else if text[start] == '(' {
        lemma_read_term_is_written(text, start + 1, to);
        let inner = read_term(text, start + 1, to)->0;
        lemma_after_blanks_bounds(text, inner.1, to);
        let close = after_blanks(text, inner.1, to);
        lemma_read_arguments_are_written(text, close + 1, to);
        let rest = read_arguments(text, close + 1, to)->0;
        lemma_written_after(inner.0, rest.0);
    } else if text[start] == ')' {
    } else {
        let stop = after_name(text, start, to);
        lemma_after_name_bounds(text, start, to);
        let word = text.subrange(start, stop);
        if word == word_if() || word == word_and() {
        } else {
            lemma_word_is_written(text, start, to);
            lemma_read_arguments_are_written(text, stop, to);
            let rest = read_arguments(text, stop, to)->0;
            lemma_written_after(TermView::Simple(simple_of(word)), rest.0);
        }
    }
}

/// A term that can be written, put before terms that can be written, gives
/// terms that can be written.
pub proof fn lemma_written_after(first: TermView, rest: Seq<TermView>)
    requires
        term_is_written(first),
        terms_are_written(rest, rest.len()),
    ensures
        terms_are_written(seq![first] + rest, (seq![first] + rest).len()),
{
    lemma_written_prefix(first, rest, rest.len());
    assert((seq![first] + rest).len() == rest.len() + 1);
}

/// The same, for the first terms of the rest.
pub proof fn lemma_written_prefix(first: TermView, rest: Seq<TermView>, count: nat)
    requires
        term_is_written(first),
        count <= rest.len(),
        terms_are_written(rest, rest.len()),
    ensures
        terms_are_written(seq![first] + rest, count + 1),
    decreases count,
{
    let all = seq![first] + rest;
    if count == 0 {
        assert(all[0] == first);
        assert(terms_are_written(all, 0));
    } else {
        lemma_written_part(rest, rest.len(), count);
        lemma_written_part(rest, rest.len(), (count - 1) as nat);
        lemma_written_prefix(first, rest, (count - 1) as nat);
        assert(all[count as int] == rest[count - 1]);
    }
}

/// If the first terms can be written, so can the first few of them.
pub proof fn lemma_written_part(terms: Seq<TermView>, count: nat, part: nat)
    requires
        part <= count <= terms.len(),
        terms_are_written(terms, count),
    ensures
        terms_are_written(terms, part),
        part > 0 ==> term_is_written(terms[part - 1]),
    decreases count,
{
    if part < count {
        lemma_written_part(terms, (count - 1) as nat, part);
    }
}

/// Goals that are read can be written.
pub proof fn lemma_read_goals_are_written(text: Seq<char>, from: int, to: int)
    requires
        0 <= from <= to <= text.len(),
        read_goals(text, from, to) is Some,
    ensures
        read_goals(text, from, to)->0.len() > 0,
        terms_are_written(read_goals(text, from, to)->0, read_goals(text, from, to)->0.len()),
    decreases to - from,
{
    lemma_read_term_is_written(text, from, to);
    let first = read_term(text, from, to)->0;
    let start = after_blanks(text, first.1, to);
    lemma_after_blanks_bounds(text, first.1, to);
    let stop = after_name(text, start, to);
    lemma_after_name_bounds(text, start, to);
    if start >= to {
        assert(terms_are_written(seq![first.0], 0));
        assert(seq![first.0][0] == first.0);
    } else {
        lemma_read_goals_are_written(text, stop, to);
        lemma_written_after(first.0, read_goals(text, stop, to)->0);
    }
}

/// A clause that is read can be written: its head can, and so can every
/// goal of its body.
pub proof fn lemma_read_clause_is_written(text: Seq<char>, from: int, to: int)
    requires
        0 <= from <= to <= text.len(),
        read_clause(text, from, to) is Some,
    ensures
        term_is_written(read_clause(text, from, to)->0.head),
        terms_are_written(
            read_clause(text, from, to)->0.body,
            read_clause(text, from, to)->0.body.len(),
        ),
{
    lemma_read_term_is_written(text, from, to);
    let first = read_term(text, from, to)->0;
    let start = after_blanks(text, first.1, to);
    lemma_after_blanks_bounds(text, first.1, to);
    let stop = after_name(text, start, to);
    lemma_after_name_bounds(text, start, to);
    if start < to {
        lemma_read_goals_are_written(text, stop, to);
    }
}

} // verus!
