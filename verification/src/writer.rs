//! The writer: gives terms, clauses and programs their written form, from
//! which the parser reads them back.

use vstd::prelude::*;
use crate::ast::{Clause, CompoundTerm, lemma_terms_view, Program, SimpleTerm, Term, terms_view};
use crate::grammar::{
    render_arguments, render_clause, render_goals, render_lines, render_term, simple_name,
    word_and, word_if,
};
use crate::parser::clauses_view;

verus! {

/// Appends the name of an atom or variable.
fn write_name(simple: &SimpleTerm, out: &mut String)
    ensures
        final(out)@ == old(out)@ + simple_name(simple@),
{
    match simple {
        SimpleTerm::Atom(name) => out.append(name.as_str()),
        SimpleTerm::Variable(name) => out.append(name.as_str()),
    }
}

/// Appends the written form of a term: its name, and after it each
/// parameter behind one blank, a compound parameter in parentheses.
pub fn write_term(term: &Term, out: &mut String)
    ensures
        final(out)@ == old(out)@ + render_term(term@),
{
    match term {
        Term::Simple(simple) => write_name(simple, out),
        Term::Compound(compound) => write_compound(compound, out),
    }
}

/// Appends the written form of a compound term.
fn write_compound(compound: &CompoundTerm, out: &mut String)
    ensures
        final(out)@ == old(out)@ + render_term(Term::Compound(*compound)@),
    decreases compound,
{
    write_name(&compound.name, out);
    let ghost named = out@;
    let ghost views = terms_view(compound.parameters@, compound.parameters@.len());
    proof {
        lemma_terms_view(compound.parameters@, compound.parameters@.len());
        reveal_strlit(" ");
        reveal_strlit("(");
        reveal_strlit(")");
        assert(" "@ =~= seq![' ']);
        assert("("@ =~= seq!['(']);
        assert(")"@ =~= seq![')']);
    }
    let mut i: usize = 0;
    while i < compound.parameters.len()
        invariant
            i <= compound.parameters@.len(),
            views == terms_view(compound.parameters@, compound.parameters@.len()),
            views.len() == compound.parameters@.len(),
            forall|k: int| 0 <= k < views.len() ==> #[trigger] views[k] == compound.parameters@[k]@,
            " "@ == seq![' '],
            "("@ == seq!['('],
            ")"@ == seq![')'],
            out@ + render_arguments(views, i as nat) == named + render_arguments(views, 0),
        decreases compound.parameters@.len() - i,
    {
        let ghost before = out@;
        assert(views[i as int] == compound.parameters@[i as int]@);
        out.append(" ");
        match &compound.parameters[i] {
            Term::Simple(simple) => {
                write_name(simple, out);
            },
            Term::Compound(inner) => {
                out.append("(");
                write_compound(inner, out);
                out.append(")");
            },
        }
        proof {
            let tail = render_arguments(views, (i + 1) as nat);
            assert(before + render_arguments(views, i as nat) =~= out@ + tail);
        }
        i += 1;
    }
    assert(out@ + Seq::<char>::empty() =~= out@);
    assert(out@ =~= old(out)@ + render_term(Term::Compound(*compound)@));
}

/// Appends the written form of a clause: its head, and if it has a body,
/// the word `if` and its goals with the word `and` between them.
pub fn write_clause(clause: &Clause, out: &mut String)
    ensures
        final(out)@ == old(out)@ + render_clause(clause@),
{
    write_term(&clause.head, out);
    let ghost headed = out@;
    let ghost views = terms_view(clause.body@, clause.body@.len());
    proof {
        lemma_terms_view(clause.body@, clause.body@.len());
        reveal_strlit(" if");
        reveal_strlit(" and");
        reveal_strlit(" ");
        assert(" if"@ =~= seq![' '] + word_if());
        assert(" and"@ =~= seq![' '] + word_and());
        assert(" "@ =~= seq![' ']);
    }
    if clause.body.len() == 0 {
        assert(out@ + Seq::<char>::empty() =~= out@);
        return ;
    }
    out.append(" if");
    let ghost started = out@;
    let mut i: usize = 0;
    while i < clause.body.len()
        invariant
            i <= clause.body@.len(),
            clause.body@.len() > 0,
            views == terms_view(clause.body@, clause.body@.len()),
            views.len() == clause.body@.len(),
            forall|k: int| 0 <= k < views.len() ==> #[trigger] views[k] == clause.body@[k]@,
            " and"@ == seq![' '] + word_and(),
            " "@ == seq![' '],
            i == 0 ==> out@ == started,
            i > 0 ==> out@ + (if i < views.len() {
                seq![' '] + word_and() + render_goals(views, i as nat)
            } else {
                Seq::<char>::empty()
            }) == started + render_goals(views, 0),
        decreases clause.body@.len() - i,
    {
        let ghost before = out@;
        if i > 0 {
            out.append(" and");
        }
        out.append(" ");
        write_term(&clause.body[i], out);
        proof {
            assert(views[i as int] == clause.body@[i as int]@);
            let tail = if i + 1 < views.len() {
                seq![' '] + word_and() + render_goals(views, (i + 1) as nat)
            } else {
                Seq::<char>::empty()
            };
            if i > 0 {
                assert(before + (seq![' '] + word_and() + render_goals(views, i as nat)) =~= out@
                    + tail);
            } else {
                assert(started + render_goals(views, 0) =~= out@ + tail);
            }
        }
        i += 1;
    }
    assert(out@ + Seq::<char>::empty() =~= out@);
    assert(out@ =~= old(out)@ + render_clause(clause@));
}

/// The written form of the clauses of a program, each on a line of its
/// own. Its queries are not written.
pub fn render(program: &Program) -> (text: String)
    ensures
        text@ == render_lines(clauses_view(program.clauses@), 0),
{
    let mut text = String::new();
    let ghost views = clauses_view(program.clauses@);
    proof {
        reveal_strlit("\n");
        assert("\n"@ =~= seq!['\n']);
    }
    let mut i: usize = 0;
    while i < program.clauses.len()
        invariant
            i <= program.clauses@.len(),
            views == clauses_view(program.clauses@),
            "\n"@ == seq!['\n'],
            text@ + render_lines(views, i as nat) == render_lines(views, 0),
        decreases program.clauses@.len() - i,
    {
        let ghost before = text@;
        write_clause(&program.clauses[i], &mut text);
        text.append("\n");
        proof {
            assert(views[i as int] == program.clauses@[i as int]@);
            assert(before + render_lines(views, i as nat) =~= text@ + render_lines(
                views,
                (i + 1) as nat,
            ));
        }
        i += 1;
    }
    assert(text@ + Seq::<char>::empty() =~= text@);
    text
}

} // verus!
