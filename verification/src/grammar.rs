//! The written form of a program.
//!
//! A program is written one clause to a line. A clause is a head, or a head,
//! the word `if`, and goals with the word `and` between them. A term is a
//! name, or a name followed by arguments; an argument is a name or a term in
//! parentheses. A name is a run of letters, digits and underscores; one that
//! starts with a capital letter or an underscore is a variable, any other an
//! atom. Blanks separate names. A `#` starts a comment that runs to the end
//! of the line. A line with nothing but blanks and a comment holds no clause.
//!
//! The first part of this file says how the written form is read, the second
//! how it is written: with one blank between names, compound arguments in
//! parentheses, and a line feed after every clause.

use vstd::prelude::*;
use crate::ast::{ClauseView, CompoundTermView, SimpleTermView, TermView};

verus! {

/// Whether `c` is a blank: a space, a tab or a carriage return.
pub open spec fn is_blank(c: char) -> bool {
    c == ' ' || c == '\t' || c == '\r'
}

/// Whether `c` may stand in a name.
pub open spec fn is_name_char(c: char) -> bool {
    ('a' <= c && c <= 'z') || ('A' <= c && c <= 'Z') || ('0' <= c && c <= '9') || c == '_'
}

/// Whether a name that starts with `c` is a variable.
pub open spec fn starts_variable(c: char) -> bool {
    ('A' <= c && c <= 'Z') || c == '_'
}

/// The word `if`.
pub open spec fn word_if() -> Seq<char> {
    seq!['i', 'f']
}

/// The word `and`.
pub open spec fn word_and() -> Seq<char> {
    seq!['a', 'n', 'd']
}

/// The first position at or after `from` and before `to` that holds no
/// blank, or `to`.
pub open spec fn after_blanks(text: Seq<char>, from: int, to: int) -> int
    decreases to - from,
{
    if 0 <= from < to <= text.len() && is_blank(text[from]) {
        after_blanks(text, from + 1, to)
    } else {
        from
    }
}

/// The first position at or after `from` and before `to` that holds no
/// character of a name, or `to`.
pub open spec fn after_name(text: Seq<char>, from: int, to: int) -> int
    decreases to - from,
{
    if 0 <= from < to <= text.len() && is_name_char(text[from]) {
        after_name(text, from + 1, to)
    } else {
        from
    }
}

/// The first position at or after `from` that holds a line feed, or the end
/// of the text.
pub open spec fn line_end(text: Seq<char>, from: int) -> int
    decreases text.len() - from,
{
    if 0 <= from < text.len() && text[from] != '\n' {
        line_end(text, from + 1)
    } else {
        from
    }
}

/// The first position at or after `from` and before `to` that holds a `#`,
/// or `to`.
pub open spec fn comment_start(text: Seq<char>, from: int, to: int) -> int
    decreases to - from,
{
    if 0 <= from < to <= text.len() && text[from] != '#' {
        comment_start(text, from + 1, to)
    } else {
        from
    }
}

/// The atom or variable that the name `word` stands for.
pub open spec fn simple_of(word: Seq<char>) -> SimpleTermView {
    if starts_variable(word[0]) {
        SimpleTermView::Variable(word)
    } else {
        SimpleTermView::Atom(word)
    }
}

/// The term made of a name and the arguments that follow it.
pub open spec fn term_of(name: SimpleTermView, parameters: Seq<TermView>) -> TermView {
    if parameters.len() == 0 {
        TermView::Simple(name)
    } else {
        TermView::Compound(CompoundTermView { name, parameters })
    }
}

/// `first` put before what was read after it, if anything was.
pub open spec fn and_then<T>(first: Seq<T>, rest: Option<(Seq<T>, int)>) -> Option<(Seq<T>, int)> {
    match rest {
        Some((more, next)) => Some((first + more, next)),
        None => None,
    }
}

/// `first` put before what was read after it, if anything was.
pub open spec fn before<T>(first: Seq<T>, rest: Option<Seq<T>>) -> Option<Seq<T>> {
    match rest {
        Some(more) => Some(first + more),
        None => None,
    }
}

/// The term written from `from` on, and where it ends: a name that is none
/// of the words `if` and `and`, and its arguments.
pub open spec fn read_term(text: Seq<char>, from: int, to: int) -> Option<(TermView, int)>
    decreases to - from, 0nat,
{
    let start = after_blanks(text, from, to);
    let stop = after_name(text, start, to);
    let word = text.subrange(start, stop);
    if start < from || stop <= start || stop > to || word == word_if() || word == word_and() {
        None
    } else {
        match read_arguments(text, stop, to) {
            Some((parameters, next)) => Some((term_of(simple_of(word), parameters), next)),
            None => None,
        }
    }
}

/// The arguments written from `from` on, and where they end: at the end of
/// the text, before a `)`, or before one of the words `if` and `and`.
pub open spec fn read_arguments(text: Seq<char>, from: int, to: int) -> Option<(Seq<TermView>, int)>
    decreases to - from, 1nat,
{
    let start = after_blanks(text, from, to);
    if start < from || start >= to {
        Some((Seq::empty(), start))
    } else if text[start] == '(' {
        match read_term(text, start + 1, to) {
            Some((term, inner)) => {
                let close = after_blanks(text, inner, to);
                if start < close < to && text[close] == ')' {
                    and_then(seq![term], read_arguments(text, close + 1, to))
                } else {
                    None
                }
            },
            None => None,
        }
    } else if text[start] == ')' {
        Some((Seq::empty(), start))
    } else {
        let stop = after_name(text, start, to);
        let word = text.subrange(start, stop);
        if stop <= start || stop > to {
            None
        } else if word == word_if() || word == word_and() {
            Some((Seq::empty(), start))
        } else {
            and_then(seq![TermView::Simple(simple_of(word))], read_arguments(text, stop, to))
        }
    }
}

/// The goals written from `from` to `to`: terms with the word `and` between
/// them.
pub open spec fn read_goals(text: Seq<char>, from: int, to: int) -> Option<Seq<TermView>>
    decreases to - from,
{
    match read_term(text, from, to) {
        Some((goal, next)) => {
            let start = after_blanks(text, next, to);
            let stop = after_name(text, start, to);
            if start >= to {
                Some(seq![goal])
            } else if from < stop <= to && text.subrange(start, stop) == word_and() {
                before(seq![goal], read_goals(text, stop, to))
            } else {
                None
            }
        },
        None => None,
    }
}

/// The clause written from `from` to `to`: a head, or a head, the word
/// `if` and goals.
pub open spec fn read_clause(text: Seq<char>, from: int, to: int) -> Option<ClauseView> {
    match read_term(text, from, to) {
        Some((head, next)) => {
            let start = after_blanks(text, next, to);
            let stop = after_name(text, start, to);
            if start >= to {
                Some(ClauseView { head, body: Seq::empty() })
            } else if text.subrange(start, stop) == word_if() {
                match read_goals(text, stop, to) {
                    Some(body) => Some(ClauseView { head, body }),
                    None => None,
                }
            } else {
                None
            }
        },
        None => None,
    }
}

/// The clauses written on the lines from `from` on, one to a line. What
/// follows a `#` on a line is left out, and a line that is blank without it
/// holds no clause.
pub open spec fn read_lines(text: Seq<char>, from: int) -> Option<Seq<ClauseView>>
    decreases text.len() - from,
{
    if from < 0 || from >= text.len() {
        Some(Seq::empty())
    } else {
        let end = line_end(text, from);
        let stop = comment_start(text, from, end);
        let rest = if from <= end < text.len() {
            read_lines(text, end + 1)
        } else {
            Some(Seq::empty())
        };
        if after_blanks(text, from, stop) >= stop {
            rest
        } else {
            match read_clause(text, from, stop) {
                Some(clause) => before(seq![clause], rest),
                None => None,
            }
        }
    }
}

/// The term that the whole of `text` is.
pub open spec fn read_whole_term(text: Seq<char>) -> Option<TermView> {
    match read_term(text, 0, text.len() as int) {
        Some((term, next)) => if after_blanks(text, next, text.len() as int) >= text.len() {
            Some(term)
        } else {
            None
        },
        None => None,
    }
}

/// The name of an atom or variable.
pub open spec fn simple_name(simple: SimpleTermView) -> Seq<char> {
    match simple {
        SimpleTermView::Atom(name) => name,
        SimpleTermView::Variable(name) => name,
    }
}

/// The written form of a term: its name, and after it each argument behind
/// one blank, a compound argument in parentheses.
pub open spec fn render_term(term: TermView) -> Seq<char>
    decreases term, 0nat,
{
    match term {
        TermView::Simple(simple) => simple_name(simple),
        TermView::Compound(compound) => simple_name(compound.name) + render_arguments(
            compound.parameters,
            0,
        ),
    }
}

/// The written form of the arguments from number `from` on.
pub open spec fn render_arguments(terms: Seq<TermView>, from: nat) -> Seq<char>
    decreases terms, terms.len() - from,
{
    if from >= terms.len() {
        Seq::empty()
    } else {
        seq![' '] + (match terms[from as int] {
            TermView::Simple(simple) => simple_name(simple),
            TermView::Compound(_) => seq!['('] + render_term(terms[from as int]) + seq![')'],
        }) + render_arguments(terms, from + 1)
    }
}

/// The written form of the goals from number `from` on, the word `and`
/// between them, each after a blank.
pub open spec fn render_goals(goals: Seq<TermView>, from: nat) -> Seq<char>
    decreases goals.len() - from,
{
    if from >= goals.len() {
        Seq::empty()
    } else {
        seq![' '] + render_term(goals[from as int]) + (if from + 1 < goals.len() {
            seq![' '] + word_and() + render_goals(goals, from + 1)
        } else {
            Seq::empty()
        })
    }
}

/// The written form of a clause: its head, and if it has a body, the word
/// `if` and its goals.
pub open spec fn render_clause(clause: ClauseView) -> Seq<char> {
    render_term(clause.head) + (if clause.body.len() == 0 {
        Seq::empty()
    } else {
        seq![' '] + word_if() + render_goals(clause.body, 0)
    })
}

/// The written form of the clauses from number `from` on, each on a line
/// of its own.
pub open spec fn render_lines(clauses: Seq<ClauseView>, from: nat) -> Seq<char>
    decreases clauses.len() - from,
{
    if from >= clauses.len() {
        Seq::empty()
    } else {
        render_clause(clauses[from as int]) + seq!['\n'] + render_lines(clauses, from + 1)
    }
}

} // verus!
