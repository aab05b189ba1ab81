//! The parser: reads the written form of a program into its syntax tree.

use vstd::prelude::*;
use crate::ast::{
    Clause, ClauseView, CompoundTerm, lemma_terms_view, lemma_terms_view_of_prefix, Program, Query,
    SimpleTerm, Term, terms_view, TermView,
};
use crate::grammar::{
    after_blanks, after_name, and_then, before, comment_start, is_blank, is_name_char, line_end,
    read_arguments, read_clause, read_goals, read_lines, read_term, read_whole_term, simple_of,
    word_and, word_if,
};

verus! {

/// The text is not the written form of what was asked for.
#[derive(Copy, Clone, Debug, PartialEq, Eq, Structural)]
pub struct ParseError {}

/// The clauses as plain values.
pub open spec fn clauses_view(clauses: Seq<Clause>) -> Seq<ClauseView> {
    Seq::new(clauses.len(), |i: int| clauses[i]@)
}

fn blank(c: char) -> (b: bool)
    ensures
        b == is_blank(c),
{
    c == ' ' || c == '\t' || c == '\r'
}

fn name_char(c: char) -> (b: bool)
    ensures
        b == is_name_char(c),
{
    ('a' <= c && c <= 'z') || ('A' <= c && c <= 'Z') || ('0' <= c && c <= '9') || c == '_'
}

/// The first position at or after `from` and before `to` that holds no
/// blank, or `to`.
fn skip_blanks(code: &str, from: usize, to: usize) -> (next: usize)
    requires
        from <= to <= code@.len(),
    ensures
        next == after_blanks(code@, from as int, to as int),
        from <= next <= to,
{
    let mut next = from;
    while next < to && blank(code.get_char(next))
        invariant
            from <= next <= to <= code@.len(),
            after_blanks(code@, from as int, to as int) == after_blanks(
                code@,
                next as int,
                to as int,
            ),
        decreases to - next,
    {
        next += 1;
    }
    next
}

/// The first position at or after `from` and before `to` that holds no
/// character of a name, or `to`.
fn skip_name(code: &str, from: usize, to: usize) -> (next: usize)
    requires
        from <= to <= code@.len(),
    ensures
        next == after_name(code@, from as int, to as int),
        from <= next <= to,
{
    let mut next = from;
    while next < to && name_char(code.get_char(next))
        invariant
            from <= next <= to <= code@.len(),
            after_name(code@, from as int, to as int) == after_name(code@, next as int, to as int),
        decreases to - next,
    {
        next += 1;
    }
    next
}

/// The first position at or after `from` that holds a line feed, or the end
/// of the text.
fn find_line_end(code: &str, from: usize, length: usize) -> (next: usize)
    requires
        from <= length == code@.len(),
    ensures
        next == line_end(code@, from as int),
        from <= next <= length,
{
    let mut next = from;
    while next < length && code.get_char(next) != '\n'
        invariant
            from <= next <= length == code@.len(),
            line_end(code@, from as int) == line_end(code@, next as int),
        decreases length - next,
    {
        next += 1;
    }
    next
}

/// The first position at or after `from` and before `to` that holds a `#`,
/// or `to`.
fn find_comment(code: &str, from: usize, to: usize) -> (next: usize)
    requires
        from <= to <= code@.len(),
    ensures
        next == comment_start(code@, from as int, to as int),
        from <= next <= to,
{
    let mut next = from;
    while next < to && code.get_char(next) != '#'
        invariant
            from <= next <= to <= code@.len(),
            comment_start(code@, from as int, to as int) == comment_start(
                code@,
                next as int,
                to as int,
            ),
        decreases to - next,
    {
        next += 1;
    }
    next
}

/// Whether the word from `start` to `stop` is `if`.
fn is_if(code: &str, start: usize, stop: usize) -> (b: bool)
    requires
        start <= stop <= code@.len(),
    ensures
        b == (code@.subrange(start as int, stop as int) == word_if()),
{
    let b = stop - start == 2 && code.get_char(start) == 'i' && code.get_char(start + 1) == 'f';
    proof {
        let word = code@.subrange(start as int, stop as int);
        if b {
            assert(word =~= word_if());
        } else if word == word_if() {
            assert(word.len() == 2 && word[0] == 'i' && word[1] == 'f');
        }
    }
    b
}

/// Whether the word from `start` to `stop` is `and`.
fn is_and(code: &str, start: usize, stop: usize) -> (b: bool)
    requires
        start <= stop <= code@.len(),
    ensures
        b == (code@.subrange(start as int, stop as int) == word_and()),
{
    let b = stop - start == 3 && code.get_char(start) == 'a' && code.get_char(start + 1) == 'n'
        && code.get_char(start + 2) == 'd';
    proof {
        let word = code@.subrange(start as int, stop as int);
        if b {
            assert(word =~= word_and());
        } else if word == word_and() {
            assert(word.len() == 3 && word[0] == 'a' && word[1] == 'n' && word[2] == 'd');
        }
    }
    b
}

/// The atom or variable that the name from `start` to `stop` stands for.
fn make_simple(code: &str, start: usize, stop: usize) -> (simple: SimpleTerm)
    requires
        start < stop <= code@.len(),
    ensures
        simple@ == simple_of(code@.subrange(start as int, stop as int)),
{
    let first = code.get_char(start);
    let name = code.substring_char(start, stop).to_owned();
    if ('A' <= first && first <= 'Z') || first == '_' {
        SimpleTerm::Variable(name)
    } else {
        SimpleTerm::Atom(name)
    }
}

/// Putting a term before what follows is putting it after what came
/// before.
proof fn lemma_and_then_push(first: Seq<TermView>, term: TermView, rest: Option<(Seq<TermView>, int)>)
    ensures
        and_then(first, and_then(seq![term], rest)) == and_then(first.push(term), rest),
{
    match rest {
        Some((more, next)) => {
            assert(first + (seq![term] + more) =~= first.push(term) + more);
        },
        None => {},
    }
}

/// Putting a value before what follows is putting it after what came
/// before.
proof fn lemma_before_push<T>(first: Seq<T>, value: T, rest: Option<Seq<T>>)
    ensures
        before(first, before(seq![value], rest)) == before(first.push(value), rest),
{
    match rest {
        Some(more) => {
            assert(first + (seq![value] + more) =~= first.push(value) + more);
        },
        None => {},
    }
}

/// One more term at the end of a list is one more view at the end of the
/// views.
proof fn lemma_terms_view_push(terms: Seq<Term>, term: Term)
    ensures
        terms_view(terms.push(term), terms.len() + 1) == terms_view(terms, terms.len()).push(term@),
{
    lemma_terms_view_of_prefix(terms, terms.push(term), terms.len());
}

/// Reads the term written from `from` on and returns it with the position
/// where it ends.
fn parse_term(code: &str, from: usize, to: usize) -> (parsed: Option<(Term, usize)>)
    requires
        from <= to <= code@.len(),
    ensures
        match parsed {
            Some((term, next)) => read_term(code@, from as int, to as int) == Some(
                (term@, next as int),
            ) && from < next <= to,
            None => read_term(code@, from as int, to as int) is None,
        },
    decreases to - from, 0nat,
{
    let start = skip_blanks(code, from, to);
    let stop = skip_name(code, start, to);
    if stop <= start || is_if(code, start, stop) || is_and(code, start, stop) {
        return None;
    }
    let name = make_simple(code, start, stop);
    match parse_arguments(code, stop, to) {
        Some((parameters, next)) => {
            proof {
                lemma_terms_view(parameters@, parameters@.len());
            }
            if parameters.len() == 0 {
                Some((Term::Simple(name), next))
            } else {
                Some((Term::Compound(CompoundTerm { name, parameters }), next))
            }
        },
        None => None,
    }
}

/// Reads the arguments written from `from` on and returns them with the
/// position where they end.
fn parse_arguments(code: &str, from: usize, to: usize) -> (parsed: Option<(Vec<Term>, usize)>)
    requires
        from <= to <= code@.len(),
    ensures
        match parsed {
            Some((parameters, next)) => read_arguments(code@, from as int, to as int) == Some(
                (terms_view(parameters@, parameters@.len()), next as int),
            ) && from <= next <= to,
            None => read_arguments(code@, from as int, to as int) is None,
        },
    decreases to - from, 1nat,
{
    let mut parameters: Vec<Term> = Vec::new();
    let mut at = from;
    loop
        invariant
            from <= at <= to <= code@.len(),
            read_arguments(code@, from as int, to as int) == and_then(
                terms_view(parameters@, parameters@.len()),
                read_arguments(code@, at as int, to as int),
            ),
        decreases to - at,
    {
        let ghost seen = terms_view(parameters@, parameters@.len());
        let start = skip_blanks(code, at, to);
        if start >= to {
            assert(seen + Seq::<TermView>::empty() =~= seen);
            return Some((parameters, start));
        }
        let c = code.get_char(start);
        if c == '(' {
            match parse_term(code, start + 1, to) {
                Some((term, inner)) => {
                    let close = skip_blanks(code, inner, to);
                    if close < to && code.get_char(close) == ')' {
                        proof {
                            lemma_and_then_push(
                                seen,
                                term@,
                                read_arguments(code@, close + 1, to as int),
                            );
                            lemma_terms_view_push(parameters@, term);
                        }
                        parameters.push(term);
                        at = close + 1;
                    } else {
                        return None;
                    }
                },
                None => {
                    return None;
                },
            }
        } else if c == ')' {
            assert(seen + Seq::<TermView>::empty() =~= seen);
            return Some((parameters, start));
        } else {
            let stop = skip_name(code, start, to);
            if stop <= start {
                return None;
            }
            if is_if(code, start, stop) || is_and(code, start, stop) {
                assert(seen + Seq::<TermView>::empty() =~= seen);
                return Some((parameters, start));
            }
            let term = Term::Simple(make_simple(code, start, stop));
            proof {
                lemma_and_then_push(seen, term@, read_arguments(code@, stop as int, to as int));
                lemma_terms_view_push(parameters@, term);
            }
            parameters.push(term);
            at = stop;
        }
    }
}

/// Reads the goals written from `from` to `to`.
fn parse_goals(code: &str, from: usize, to: usize) -> (parsed: Option<Vec<Term>>)
    requires
        from <= to <= code@.len(),
    ensures
        match parsed {
            Some(goals) => read_goals(code@, from as int, to as int) == Some(
                terms_view(goals@, goals@.len()),
            ),
            None => read_goals(code@, from as int, to as int) is None,
        },
{
    let mut goals: Vec<Term> = Vec::new();
    let mut at = from;
    loop
        invariant
            from <= at <= to <= code@.len(),
            read_goals(code@, from as int, to as int) == before(
                terms_view(goals@, goals@.len()),
                read_goals(code@, at as int, to as int),
            ),
        decreases to - at,
    {
        let ghost seen = terms_view(goals@, goals@.len());
        match parse_term(code, at, to) {
            Some((goal, next)) => {
                let start = skip_blanks(code, next, to);
                let stop = skip_name(code, start, to);
                proof {
                    lemma_terms_view_push(goals@, goal);
                }
                if start >= to {
                    assert(seen + seq![goal@] =~= seen.push(goal@));
                    goals.push(goal);
                    return Some(goals);
                } else if is_and(code, start, stop) {
                    proof {
                        lemma_before_push(seen, goal@, read_goals(code@, stop as int, to as int));
                    }
                    goals.push(goal);
                    at = stop;
                } else {
                    return None;
                }
            },
            None => {
                return None;
            },
        }
    }
}

/// Reads the clause written from `from` to `to`.
fn parse_clause(code: &str, from: usize, to: usize) -> (parsed: Option<Clause>)
    requires
        from <= to <= code@.len(),
    ensures
        match parsed {
            Some(clause) => read_clause(code@, from as int, to as int) == Some(clause@),
            None => read_clause(code@, from as int, to as int) is None,
        },
{
    match parse_term(code, from, to) {
        Some((head, next)) => {
            let start = skip_blanks(code, next, to);
            let stop = skip_name(code, start, to);
            if start >= to {
                Some(Clause { head, body: Vec::new() })
            } else if is_if(code, start, stop) {
                match parse_goals(code, stop, to) {
                    Some(body) => Some(Clause { head, body }),
                    None => None,
                }
            } else {
                None
            }
        },
        None => None,
    }
}

/// Reads a term from text that holds nothing else.
pub fn construct_term(code: &str) -> (parsed: Result<Term, ParseError>)
    ensures
        match parsed {
            Ok(term) => read_whole_term(code@) == Some(term@),
            Err(_) => read_whole_term(code@) is None,
        },
{
    let length = code.unicode_len();
    match parse_term(code, 0, length) {
        Some((term, next)) => {
            if skip_blanks(code, next, length) >= length {
                Ok(term)
            } else {
                Err(ParseError {  })
            }
        },
        None => Err(ParseError {  }),
    }
}

/// Reads a clause from text that holds nothing else.
pub fn construct_clause(code: &str) -> (parsed: Result<Clause, ParseError>)
    ensures
        match parsed {
            Ok(clause) => read_clause(code@, 0, code@.len() as int) == Some(clause@),
            Err(_) => read_clause(code@, 0, code@.len() as int) is None,
        },
{
    let length = code.unicode_len();
    match parse_clause(code, 0, length) {
        Some(clause) => Ok(clause),
        None => Err(ParseError {  }),
    }
}

/// Reads a query from text that holds nothing else: goals with the word
/// `and` between them.
pub fn construct_query(code: &str) -> (parsed: Result<Query, ParseError>)
    ensures
        match parsed {
            Ok(query) => read_goals(code@, 0, code@.len() as int) == Some(
                terms_view(query.sub_queries@, query.sub_queries@.len()),
            ),
            Err(_) => read_goals(code@, 0, code@.len() as int) is None,
        },
{
    let length = code.unicode_len();
    match parse_goals(code, 0, length) {
        Some(sub_queries) => Ok(Query { sub_queries }),
        None => Err(ParseError {  }),
    }
}

/// Reads a program: the clauses written in `code`, one to a line, in order.
/// The program has no query.
pub fn parse(code: &str) -> (parsed: Result<Program, ParseError>)
    ensures
        match parsed {
            Ok(program) => read_lines(code@, 0) == Some(clauses_view(program.clauses@))
                && program.queries@.len() == 0,
            Err(_) => read_lines(code@, 0) is None,
        },
{
    let length = code.unicode_len();
    let mut program = Program::new();
    let mut at: usize = 0;
    while at < length
        invariant
            at <= length == code@.len(),
            program.queries@.len() == 0,
            read_lines(code@, 0) == before(
                clauses_view(program.clauses@),
                read_lines(code@, at as int),
            ),
        decreases length - at,
    {
        let ghost seen = clauses_view(program.clauses@);
        let end = find_line_end(code, at, length);
        let stop = find_comment(code, at, end);
        let ghost rest = if end < length {
            read_lines(code@, end + 1)
        } else {
            Some(Seq::<ClauseView>::empty())
        };
        if skip_blanks(code, at, stop) < stop {
            match parse_clause(code, at, stop) {
                Some(clause) => {
                    proof {
                        lemma_before_push(seen, clause@, rest);
                    }
                    program.push_clause(clause);
                    assert(clauses_view(program.clauses@) =~= seen.push(clause@));
                },
                None => {
                    return Err(ParseError {  });
                },
            }
        }
        if end < length {
            at = end + 1;
        } else {
            at = length;
            assert(read_lines(code@, at as int) == rest);
        }
    }
    assert(clauses_view(program.clauses@) + Seq::<ClauseView>::empty() =~= clauses_view(
        program.clauses@,
    ));
    Ok(program)
}

} // verus!
