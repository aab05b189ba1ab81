//! Writing and reading are inverse to each other: a term, clause or program
//! that can be written is read back from its written form as it was.

use vstd::prelude::*;
use crate::ast::{ClauseView, SimpleTermView, TermView};
use crate::grammar::{
    after_blanks, after_name, comment_start, is_blank, is_name_char, line_end, read_arguments,
    read_clause, read_goals, read_lines, read_term, read_whole_term, render_arguments,
    render_clause, render_goals, render_lines, render_term, simple_name, simple_of, word_and,
    word_if,
};
use crate::laws::grammar_laws::{
    is_name, lemma_after_blanks_bounds, lemma_written_part, simple_is_written, term_is_written,
    terms_are_written,
};

verus! {

/// Whether `written` stands in `text` from `at` on.
pub open spec fn stands_at(text: Seq<char>, at: int, written: Seq<char>) -> bool {
    &&& 0 <= at
    &&& at + written.len() <= text.len()
    &&& forall|k: int| 0 <= k < written.len() ==> text[at + k] == #[trigger] written[k]
}

/// Whether the arguments of a term end at `at`: what follows is the end of
/// the text, a `)`, or one of the words `if` and `and`, after blanks or
/// none, and no name goes on at `at`.
pub open spec fn term_ends(text: Seq<char>, at: int, to: int) -> bool {
    &&& 0 <= at <= to <= text.len()
    &&& at == to || !is_name_char(text[at])
    &&& read_arguments(text, at, to) == Some((Seq::<TermView>::empty(), after_blanks(text, at, to)))
}

/// What stands in the text stands there piece by piece.
pub proof fn lemma_stands_in_pieces(text: Seq<char>, at: int, first: Seq<char>, rest: Seq<char>)
    requires
        stands_at(text, at, first + rest),
    ensures
        stands_at(text, at, first),
        stands_at(text, at + first.len(), rest),
{
    assert forall|k: int| 0 <= k < first.len() implies text[at + k] == #[trigger] first[k] by {
        assert((first + rest)[k] == first[k]);
    }
    assert forall|k: int| 0 <= k < rest.len() implies text[at + first.len() + k]
        == #[trigger] rest[k] by {
        assert((first + rest)[first.len() + k] == rest[k]);
    }
}

/// No blank is skipped where a character stands that is no blank.
pub proof fn lemma_no_blank(text: Seq<char>, at: int, to: int)
    requires
        at >= to || at < 0 || to > text.len() || !is_blank(text[at]),
    ensures
        after_blanks(text, at, to) == at,
{
}

/// A name that stands in the text, with no name character after it, is
/// scanned as it stands.
pub proof fn lemma_name_is_scanned(text: Seq<char>, at: int, to: int, name: Seq<char>)
    requires
        stands_at(text, at, name),
        forall|i: int| 0 <= i < name.len() ==> is_name_char(#[trigger] name[i]),
        at + name.len() <= to <= text.len(),
        at + name.len() == to || !is_name_char(text[at + name.len()]),
    ensures
        after_name(text, at, to) == at + name.len(),
        text.subrange(at, at + name.len()) == name,
    decreases name.len(),
{
    if name.len() > 0 {
        let rest = name.subrange(1, name.len() as int);
        assert(name =~= seq![name[0]] + rest);
        lemma_stands_in_pieces(text, at, seq![name[0]], rest);
        assert forall|i: int| 0 <= i < rest.len() implies is_name_char(#[trigger] rest[i]) by {
            assert(rest[i] == name[i + 1]);
        }
        lemma_name_is_scanned(text, at + 1, to, rest);
        assert(text[at + 0] == name[0]);
        assert(is_name_char(name[0]));
    }
    assert(text.subrange(at, at + name.len()) =~= name);
}

/// The atom or variable that its own name stands for is itself.
pub proof fn lemma_simple_of_name(simple: SimpleTermView)
    requires
        simple_is_written(simple),
    ensures
        simple_of(simple_name(simple)) == simple,
        is_name(simple_name(simple)),
{
}

/// A term that can be written is read from where its written form stands,
/// if its arguments end there.
pub proof fn lemma_term_is_read(text: Seq<char>, at: int, to: int, term: TermView)
    requires
        term_is_written(term),
        stands_at(text, at, render_term(term)),
        term_ends(text, at + render_term(term).len(), to),
    ensures
        read_term(text, at, to) == Some(
            (term, after_blanks(text, at + render_term(term).len(), to)),
        ),
    decreases term, 0nat,
{
    match term {
        TermView::Simple(simple) => {
            let name = simple_name(simple);
            lemma_simple_of_name(simple);
            assert(text[at + 0] == name[0]);
            lemma_no_blank(text, at, to);
            lemma_name_is_scanned(text, at, to, name);
        },
        TermView::Compound(compound) => {
            let name = simple_name(compound.name);
            let rest = render_arguments(compound.parameters, 0);
            lemma_simple_of_name(compound.name);
            lemma_stands_in_pieces(text, at, name, rest);
            assert(text[at + 0] == name[0]);
            lemma_no_blank(text, at, to);
            assert(rest[0] == ' ');
            assert(text[at + name.len() + 0] == rest[0]);
            lemma_name_is_scanned(text, at, to, name);
            lemma_arguments_are_read(text, at + name.len(), to, compound.parameters, 0);
            assert(compound.parameters.skip(0) =~= compound.parameters);
        },
    }
}

/// Arguments that can be written are read from where their written form
/// stands, if they end there.
pub proof fn lemma_arguments_are_read(
    text: Seq<char>,
    at: int,
    to: int,
    terms: Seq<TermView>,
    from: nat,
)
    requires
        from <= terms.len(),
        terms_are_written(terms, terms.len()),
        stands_at(text, at, render_arguments(terms, from)),
        term_ends(text, at + render_arguments(terms, from).len(), to),
    ensures
        read_arguments(text, at, to) == Some(
            (terms.skip(from as int), after_blanks(
                text,
                at + render_arguments(terms, from).len(),
                to,
            )),
        ),
    decreases terms, terms.len() - from,
{
    if from >= terms.len() {
        assert(terms.skip(from as int) =~= Seq::<TermView>::empty());
    } else {
        let first = terms[from as int];
        lemma_written_part(terms, terms.len(), from + 1);
        let tail = render_arguments(terms, from + 1);
        assert(terms.skip(from as int) =~= seq![first] + terms.skip((from + 1) as int));
        match first {
            TermView::Simple(simple) => {
                let name = simple_name(simple);
                lemma_simple_of_name(simple);
                assert(render_arguments(terms, from) =~= seq![' '] + (name + tail));
                lemma_stands_in_pieces(text, at, seq![' '], name + tail);
                lemma_stands_in_pieces(text, at + 1, name, tail);
                assert(text[at + 0] == seq![' '][0]);
                assert(text[at + 1 + 0] == name[0]);
                lemma_no_blank(text, at + 1, to);
                assert(after_blanks(text, at, to) == at + 1);
                if tail.len() > 0 {
                    assert(tail[0] == ' ');
                    assert(text[at + 1 + name.len() + 0] == tail[0]);
                }
                lemma_name_is_scanned(text, at + 1, to, name);
                lemma_arguments_are_read(text, at + 1 + name.len(), to, terms, from + 1);
            },
            TermView::Compound(_) => {
                let inner = render_term(first);
                assert(render_arguments(terms, from) =~= seq![' '] + (seq!['('] + (inner + (
                seq![')'] + tail))));
                lemma_stands_in_pieces(text, at, seq![' '], seq!['('] + (inner + (seq![')']
                    + tail)));
                lemma_stands_in_pieces(text, at + 1, seq!['('], inner + (seq![')'] + tail));
                lemma_stands_in_pieces(text, at + 2, inner, seq![')'] + tail);
                lemma_stands_in_pieces(text, at + 2 + inner.len(), seq![')'], tail);
                assert(text[at + 0] == seq![' '][0]);
                assert(text[at + 1 + 0] == seq!['('][0]);
                let close = at + 2 + inner.len();
                assert(text[close + 0] == seq![')'][0]);
                lemma_no_blank(text, at + 1, to);
                assert(after_blanks(text, at, to) == at + 1);
                lemma_no_blank(text, close, to);
                assert(term_ends(text, close, to));
                lemma_term_is_read(text, at + 2, to, first);
                lemma_arguments_are_read(text, close + 1, to, terms, from + 1);
            },
        }
    }
}

/// Whether the clause can be written: its head can, and so can every goal
/// of its body.
pub open spec fn clause_is_written(clause: ClauseView) -> bool {
    term_is_written(clause.head) && terms_are_written(clause.body, clause.body.len())
}

/// Whether a character is one that written forms are made of: a character
/// of a name, a blank or a parenthesis.
pub open spec fn is_plain(c: char) -> bool {
    is_name_char(c) || c == ' ' || c == '(' || c == ')'
}

/// A term is read the same from a blank before it as from its start.
pub proof fn lemma_read_term_after_blank(text: Seq<char>, at: int, to: int)
    requires
        0 <= at < to <= text.len(),
        text[at] == ' ',
    ensures
        read_term(text, at, to) == read_term(text, at + 1, to),
{
    lemma_after_blanks_bounds(text, at + 1, to);
}

/// A word that stands after a blank, with no name character after it, ends
/// the arguments of a term.
pub proof fn lemma_word_ends_term(text: Seq<char>, at: int, to: int, word: Seq<char>)
    requires
        word == word_if() || word == word_and(),
        stands_at(text, at, seq![' '] + word),
        at + 1 + word.len() <= to <= text.len(),
        at + 1 + word.len() == to || !is_name_char(text[at + 1 + word.len()]),
    ensures
        term_ends(text, at, to),
        after_blanks(text, at, to) == at + 1,
        after_name(text, at + 1, to) == at + 1 + word.len(),
        text.subrange(at + 1, at + 1 + word.len()) == word,
{
    lemma_stands_in_pieces(text, at, seq![' '], word);
    assert(text[at + 0] == seq![' '][0]);
    assert(text[at + 1 + 0] == word[0]);
    lemma_no_blank(text, at + 1, to);
    lemma_name_is_scanned(text, at + 1, to, word);
}

/// Goals that can be written are read from where their written form
/// stands and ends.
pub proof fn lemma_goals_are_read(text: Seq<char>, at: int, goals: Seq<TermView>, from: nat)
    requires
        from < goals.len(),
        terms_are_written(goals, goals.len()),
        stands_at(text, at, render_goals(goals, from)),
    ensures
        read_goals(text, at, at + render_goals(goals, from).len()) == Some(
            goals.skip(from as int),
        ),
    decreases goals.len() - from,
{
    let to = at + render_goals(goals, from).len();
    let goal = goals[from as int];
    let inner = render_term(goal);
    lemma_written_part(goals, goals.len(), from + 1);
    assert(goals.skip(from as int) =~= seq![goal] + goals.skip((from + 1) as int));
    lemma_after_blanks_bounds(text, to, to);
    if from + 1 < goals.len() {
        let tail = render_goals(goals, from + 1);
        assert(render_goals(goals, from) =~= seq![' '] + (inner + ((seq![' '] + word_and())
            + tail)));
        lemma_stands_in_pieces(text, at, seq![' '], inner + ((seq![' '] + word_and()) + tail));
        lemma_stands_in_pieces(text, at + 1, inner, (seq![' '] + word_and()) + tail);
        let end = at + 1 + inner.len();
        lemma_stands_in_pieces(text, end, seq![' '] + word_and(), tail);
        assert(text[at + 0] == seq![' '][0]);
        assert(tail[0] == ' ');
        assert(text[end + 4 + 0] == tail[0]);
        lemma_word_ends_term(text, end, to, word_and());
        lemma_read_term_after_blank(text, at, to);
        lemma_term_is_read(text, at + 1, to, goal);
        lemma_no_blank(text, end + 1, to);
        lemma_goals_are_read(text, end + 4, goals, from + 1);
    } else {
        assert(render_goals(goals, from) =~= seq![' '] + inner);
        lemma_stands_in_pieces(text, at, seq![' '], inner);
        assert(text[at + 0] == seq![' '][0]);
        lemma_read_term_after_blank(text, at, to);
        lemma_no_blank(text, to, to);
        lemma_term_is_read(text, at + 1, to, goal);
        assert(goals.skip((from + 1) as int) =~= Seq::<TermView>::empty());
    }
}

/// A clause that can be written is read from where its written form stands
/// and ends.
pub proof fn lemma_clause_is_read(text: Seq<char>, at: int, clause: ClauseView)
    requires
        clause_is_written(clause),
        stands_at(text, at, render_clause(clause)),
    ensures
        read_clause(text, at, at + render_clause(clause).len()) == Some(clause),
{
    let to = at + render_clause(clause).len();
    let head = render_term(clause.head);
    lemma_no_blank(text, to, to);
    lemma_after_blanks_bounds(text, to, to);
    if clause.body.len() == 0 {
        assert(render_clause(clause) =~= head);
        lemma_term_is_read(text, at, to, clause.head);
        assert(clause.body =~= Seq::<TermView>::empty());
    } else {
        let goals = render_goals(clause.body, 0);
        assert(render_clause(clause) =~= head + ((seq![' '] + word_if()) + goals));
        lemma_stands_in_pieces(text, at, head, (seq![' '] + word_if()) + goals);
        let end = at + head.len();
        lemma_stands_in_pieces(text, end, seq![' '] + word_if(), goals);
        assert(goals[0] == ' ');
        assert(text[end + 3 + 0] == goals[0]);
        lemma_word_ends_term(text, end, to, word_if());
        lemma_term_is_read(text, at, to, clause.head);
        lemma_no_blank(text, end + 1, to);
        lemma_goals_are_read(text, end + 3, clause.body, 0);
        assert(clause.body.skip(0) =~= clause.body);
    }
}

/// Whether every character is plain.
pub open spec fn all_plain(written: Seq<char>) -> bool {
    forall|k: int| 0 <= k < written.len() ==> is_plain(#[trigger] written[k])
}

/// Plain characters after plain characters are plain characters.
pub proof fn lemma_plain_joined(first: Seq<char>, rest: Seq<char>)
    requires
        all_plain(first),
        all_plain(rest),
    ensures
        all_plain(first + rest),
{
    assert forall|k: int| 0 <= k < (first + rest).len() implies is_plain(
        #[trigger] (first + rest)[k],
    ) by {
        if k < first.len() {
            assert((first + rest)[k] == first[k]);
        } else {
            assert((first + rest)[k] == rest[k - first.len()]);
        }
    }
}

/// A name is made of plain characters.
pub proof fn lemma_name_is_plain(simple: SimpleTermView)
    requires
        simple_is_written(simple),
    ensures
        all_plain(simple_name(simple)),
        simple_name(simple).len() > 0,
        is_name_char(simple_name(simple)[0]),
{
    lemma_simple_of_name(simple);
}

/// The written form of a term is made of plain characters, and starts with
/// a character of a name.
pub proof fn lemma_term_is_plain(term: TermView)
    requires
        term_is_written(term),
    ensures
        render_term(term).len() > 0,
        is_name_char(render_term(term)[0]),
        all_plain(render_term(term)),
    decreases term, 0nat,
{
    match term {
        TermView::Simple(simple) => {
            lemma_name_is_plain(simple);
        },
        TermView::Compound(compound) => {
            lemma_name_is_plain(compound.name);
            lemma_arguments_are_plain(compound.parameters, 0);
            lemma_plain_joined(
                simple_name(compound.name),
                render_arguments(compound.parameters, 0),
            );
            assert(render_term(term)[0] == simple_name(compound.name)[0]);
        },
    }
}

/// The written form of arguments is made of plain characters.
pub proof fn lemma_arguments_are_plain(terms: Seq<TermView>, from: nat)
    requires
        from <= terms.len(),
        terms_are_written(terms, terms.len()),
    ensures
        all_plain(render_arguments(terms, from)),
    decreases terms, terms.len() - from,
{
    if from < terms.len() {
        let first = terms[from as int];
        lemma_written_part(terms, terms.len(), from + 1);
        lemma_arguments_are_plain(terms, from + 1);
        let tail = render_arguments(terms, from + 1);
        assert(all_plain(seq![' ']));
        match first {
            TermView::Simple(simple) => {
                lemma_name_is_plain(simple);
                lemma_plain_joined(seq![' '], simple_name(simple));
                lemma_plain_joined(seq![' '] + simple_name(simple), tail);
            },
            TermView::Compound(_) => {
                lemma_term_is_plain(first);
                assert(all_plain(seq!['(']));
                assert(all_plain(seq![')']));
                lemma_plain_joined(seq!['('], render_term(first));
                lemma_plain_joined(seq!['('] + render_term(first), seq![')']);
                lemma_plain_joined(seq![' '], seq!['('] + render_term(first) + seq![')']);
                lemma_plain_joined(
                    seq![' '] + (seq!['('] + render_term(first) + seq![')']),
                    tail,
                );
            },
        }
    }
}

/// The written form of goals is made of plain characters.
pub proof fn lemma_goals_are_plain(goals: Seq<TermView>, from: nat)
    requires
        from <= goals.len(),
        terms_are_written(goals, goals.len()),
    ensures
        all_plain(render_goals(goals, from)),
    decreases goals.len() - from,
{
    if from < goals.len() {
        lemma_written_part(goals, goals.len(), from + 1);
        lemma_term_is_plain(goals[from as int]);
        lemma_goals_are_plain(goals, from + 1);
        assert(all_plain(seq![' ']));
        assert(all_plain(word_and()));
        lemma_plain_joined(seq![' '], render_term(goals[from as int]));
        if from + 1 < goals.len() {
            lemma_plain_joined(seq![' '], word_and());
            lemma_plain_joined(seq![' '] + word_and(), render_goals(goals, from + 1));
            lemma_plain_joined(
                seq![' '] + render_term(goals[from as int]),
                seq![' '] + word_and() + render_goals(goals, from + 1),
            );
        } else {
            assert(all_plain(Seq::<char>::empty()));
            lemma_plain_joined(seq![' '] + render_term(goals[from as int]), Seq::<char>::empty());
        }
    }
}

/// The written form of a clause is made of plain characters, and starts
/// with a character of a name.
pub proof fn lemma_clause_is_plain(clause: ClauseView)
    requires
        clause_is_written(clause),
    ensures
        render_clause(clause).len() > 0,
        is_name_char(render_clause(clause)[0]),
        all_plain(render_clause(clause)),
{
    lemma_term_is_plain(clause.head);
    lemma_goals_are_plain(clause.body, 0);
    assert(render_clause(clause)[0] == render_term(clause.head)[0]);
    if clause.body.len() == 0 {
        assert(all_plain(Seq::<char>::empty()));
        lemma_plain_joined(render_term(clause.head), Seq::<char>::empty());
    } else {
        assert(all_plain(seq![' ']));
        assert(all_plain(word_if()));
        lemma_plain_joined(seq![' '], word_if());
        lemma_plain_joined(seq![' '] + word_if(), render_goals(clause.body, 0));
        lemma_plain_joined(
            render_term(clause.head),
            seq![' '] + word_if() + render_goals(clause.body, 0),
        );
    }
}

/// A line of plain characters ends at the line feed after it.
pub proof fn lemma_line_ends(text: Seq<char>, at: int, line: Seq<char>)
    requires
        stands_at(text, at, line + seq!['\n']),
        all_plain(line),
    ensures
        line_end(text, at) == at + line.len(),
        comment_start(text, at, at + line.len()) == at + line.len(),
    decreases line.len(),
{
    lemma_stands_in_pieces(text, at, line, seq!['\n']);
    if line.len() > 0 {
        let rest = line.subrange(1, line.len() as int);
        assert(line =~= seq![line[0]] + rest);
        assert(line + seq!['\n'] =~= seq![line[0]] + (rest + seq!['\n']));
        lemma_stands_in_pieces(text, at, seq![line[0]], rest + seq!['\n']);
        assert forall|k: int| 0 <= k < rest.len() implies is_plain(#[trigger] rest[k]) by {
            assert(rest[k] == line[k + 1]);
            assert(is_plain(line[k + 1]));
        }
        lemma_line_ends(text, at + 1, rest);
        assert(text[at + 0] == line[0]);
        assert(is_plain(line[0]));
    } else {
        assert(text[at + 0] == seq!['\n'][0]);
    }
}

/// Clauses that can be written are read from where their written form
/// stands, one to a line, up to the end of the text.
pub proof fn lemma_lines_are_read(text: Seq<char>, at: int, clauses: Seq<ClauseView>, from: nat)
    requires
        from <= clauses.len(),
        forall|k: int| 0 <= k < clauses.len() ==> clause_is_written(#[trigger] clauses[k]),
        stands_at(text, at, render_lines(clauses, from)),
        at + render_lines(clauses, from).len() == text.len(),
    ensures
        read_lines(text, at) == Some(clauses.skip(from as int)),
    decreases clauses.len() - from,
{
    if from >= clauses.len() {
        assert(clauses.skip(from as int) =~= Seq::<ClauseView>::empty());
    } else {
        let clause = clauses[from as int];
        let line = render_clause(clause);
        let tail = render_lines(clauses, from + 1);
        assert(render_lines(clauses, from) =~= (line + seq!['\n']) + tail);
        lemma_stands_in_pieces(text, at, line + seq!['\n'], tail);
        lemma_stands_in_pieces(text, at, line, seq!['\n']);
        lemma_clause_is_plain(clause);
        lemma_line_ends(text, at, line);
        let end = at + line.len();
        assert(text[at + 0] == line[0]);
        lemma_no_blank(text, at, end);
        lemma_clause_is_read(text, at, clause);
        lemma_lines_are_read(text, end + 1, clauses, from + 1);
        assert(clauses.skip(from as int) =~= seq![clause] + clauses.skip((from + 1) as int));
    }
}

/// A clause that can be written is read back from its written form.
pub proof fn lemma_written_clause_is_read_back(clause: ClauseView)
    requires
        clause_is_written(clause),
    ensures
        read_clause(render_clause(clause), 0, render_clause(clause).len() as int) == Some(clause),
{
    lemma_clause_is_read(render_clause(clause), 0, clause);
}

/// A program whose clauses can be written is read back from its written
/// form, clause for clause.
pub proof fn lemma_written_program_is_read_back(clauses: Seq<ClauseView>)
    requires
        forall|k: int| 0 <= k < clauses.len() ==> clause_is_written(#[trigger] clauses[k]),
    ensures
        read_lines(render_lines(clauses, 0), 0) == Some(clauses),
{
    lemma_lines_are_read(render_lines(clauses, 0), 0, clauses, 0);
    assert(clauses.skip(0) =~= clauses);
}

/// A term that can be written is read back from its written form.
pub proof fn lemma_written_term_is_read_back(term: TermView)
    requires
        term_is_written(term),
    ensures
        read_whole_term(render_term(term)) == Some(term),
{
    let text = render_term(term);
    lemma_no_blank(text, text.len() as int, text.len() as int);
    lemma_term_is_read(text, 0, text.len() as int, term);
}

} // verus!
