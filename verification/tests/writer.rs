use butterfly_pl::ast::{Clause, CompoundTerm, Program, SimpleTerm, Term};
use butterfly_pl::parser::parse;
use butterfly_pl::writer::{render, write_clause, write_term};

fn atom(name: &str) -> Term {
    Term::Simple(SimpleTerm::Atom(String::from(name)))
}

fn variable(name: &str) -> Term {
    Term::Simple(SimpleTerm::Variable(String::from(name)))
}

fn compound(name: &str, parameters: Vec<Term>) -> Term {
    Term::Compound(CompoundTerm { name: SimpleTerm::Atom(String::from(name)), parameters })
}

fn sample() -> Program {
    let mut program = Program::new();
    program.push_clause(Clause { head: atom("a"), body: Vec::new() });
    program.push_clause(Clause {
        head: compound(
            "a",
            vec![compound("a", vec![compound("b", vec![atom("e"), atom("f")])]), atom("c")],
        ),
        body: vec![atom("a"), variable("B")],
    });
    program.push_clause(Clause {
        head: compound("parent", vec![variable("X"), variable("_y")]),
        body: vec![compound("father", vec![variable("X"), variable("_y")])],
    });
    program
}

#[test]
fn test_write_term() {
    let mut out = String::from("> ");
    write_term(&atom("abc"), &mut out);
    assert_eq!("> abc", out);

    let mut out = String::new();
    let term = compound(
        "a",
        vec![compound("a", vec![compound("b", vec![atom("e"), atom("f")])]), atom("c")],
    );
    write_term(&term, &mut out);
    assert_eq!("a (a (b e f)) c", out);
}

#[test]
fn test_write_clause() {
    let mut out = String::new();
    write_clause(&Clause { head: atom("a"), body: Vec::new() }, &mut out);
    assert_eq!("a", out);

    let mut out = String::new();
    write_clause(&Clause { head: atom("a"), body: vec![variable("B")] }, &mut out);
    assert_eq!("a if B", out);

    let mut out = String::new();
    let clause = Clause {
        head: compound("p", vec![variable("X")]),
        body: vec![compound("q", vec![variable("X"), atom("a")]), atom("r"), variable("X")],
    };
    write_clause(&clause, &mut out);
    assert_eq!("p X if q X a and r and X", out);
}

#[test]
fn test_render_program() {
    assert_eq!("", render(&Program::new()));
    assert_eq!(
        "a\na (a (b e f)) c if a and B\nparent X _y if father X _y\n",
        render(&sample())
    );
}

#[test]
fn test_what_is_written_is_read_back() {
    let program = sample();
    assert_eq!(Ok(sample()), parse(&render(&program)));
    assert_eq!(Ok(Program::new()), parse(&render(&Program::new())));
}
