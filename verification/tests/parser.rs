use butterfly_pl::ast::{Clause, CompoundTerm, Program, SimpleTerm, Term};
use butterfly_pl::parser::{construct_clause, construct_term, parse, ParseError};

fn atom(name: &str) -> Term {
    Term::Simple(SimpleTerm::Atom(String::from(name)))
}

fn variable(name: &str) -> Term {
    Term::Simple(SimpleTerm::Variable(String::from(name)))
}

/**
 * Returns a Term representing "a (a (b e f)) c"
 */
fn make_compound_term() -> Term {
    let mut parameters = Vec::new();
    parameters.push(Term::Simple(SimpleTerm::Atom(String::from("e"))));
    parameters.push(Term::Simple(SimpleTerm::Atom(String::from("f"))));
    let arg1 = Term::Compound(CompoundTerm {
        name: SimpleTerm::Atom(String::from("b")),
        parameters,
    });

    let mut parameters = Vec::new();
    parameters.push(arg1);
    let arg2 = Term::Compound(CompoundTerm {
        name: SimpleTerm::Atom(String::from("a")),
        parameters,
    });

    let mut parameters = Vec::new();
    parameters.push(arg2);
    parameters.push(Term::Simple(SimpleTerm::Atom(String::from("c"))));
    Term::Compound(CompoundTerm { name: SimpleTerm::Atom(String::from("a")), parameters })
}

#[test]
fn test_construct_term_atom() {
    let term = construct_term("abc").unwrap();
    assert_eq!(term, Term::Simple(SimpleTerm::Atom(String::from("abc"))));
}

#[test]
fn test_construct_term_variable() {
    let term = construct_term("Abc").unwrap();
    assert_eq!(term, Term::Simple(SimpleTerm::Variable(String::from("Abc"))));
}

#[test]
fn test_construct_term_underscore() {
    let term = construct_term("_abc").unwrap();
    assert_eq!(term, Term::Simple(SimpleTerm::Variable(String::from("_abc"))));
}

#[test]
#[should_panic]
fn test_construct_term_panic() {
    let _ = construct_term("#abc").unwrap();
}

#[test]
fn test_construct_term_compound() {
    let term = construct_term("a (a (b e f)) c").unwrap();
    let expected_term = make_compound_term();
    assert_eq!(expected_term, term);
}

#[test]
fn test_construct_clause_without_body() {
    let clause = construct_clause("a (a (b e f)) c").unwrap();

    let expected_head = make_compound_term();
    let expected_body = Vec::new();
    let expected_clause = Clause { head: expected_head, body: expected_body };

    assert_eq!(expected_clause, clause);
}

#[test]
fn test_construct_clause_with_body() {
    let clause = construct_clause("a (a (b e f)) c if a and b").unwrap();

    let expected_head = make_compound_term();
    let mut expected_body = Vec::new();
    expected_body.push(Term::Simple(SimpleTerm::Atom(String::from("a"))));
    expected_body.push(Term::Simple(SimpleTerm::Atom(String::from("b"))));
    let expected_clause = Clause { head: expected_head, body: expected_body };

    assert_eq!(expected_clause, clause);
}

#[test]
fn test_parse() {
    let program = parse("a \n a (a (b e f)) c if a and b \n b").unwrap();

    let mut expected_program = Program::new();

    expected_program.push_clause(Clause {
        head: Term::Simple(SimpleTerm::Atom(String::from("a"))),
        body: Vec::new(),
    });

    let expected_head = make_compound_term();
    let mut expected_body = Vec::new();
    expected_body.push(Term::Simple(SimpleTerm::Atom(String::from("a"))));
    expected_body.push(Term::Simple(SimpleTerm::Atom(String::from("b"))));
    let expected_clause = Clause { head: expected_head, body: expected_body };
    expected_program.push_clause(expected_clause);

    expected_program.push_clause(Clause {
        head: Term::Simple(SimpleTerm::Atom(String::from("b"))),
        body: Vec::new(),
    });

    assert_eq!(expected_program, program);
}

#[test]
fn test_parse_skips_comments_and_blank_lines() {
    let program = parse("# comment \n abc Y X if abc X Y and def \n # comment").unwrap();
    let mut expected = Program::new();
    expected.push_clause(Clause {
        head: Term::Compound(CompoundTerm {
            name: SimpleTerm::Atom(String::from("abc")),
            parameters: vec![variable("Y"), variable("X")],
        }),
        body: vec![
            Term::Compound(CompoundTerm {
                name: SimpleTerm::Atom(String::from("abc")),
                parameters: vec![variable("X"), variable("Y")],
            }),
            atom("def"),
        ],
    });
    assert_eq!(expected, program);

    let program = parse("abc\n\tAbc \n").unwrap();
    let mut expected = Program::new();
    expected.push_clause(Clause { head: atom("abc"), body: Vec::new() });
    expected.push_clause(Clause { head: variable("Abc"), body: Vec::new() });
    assert_eq!(expected, program);
}

#[test]
fn test_parse_comment_after_a_clause() {
    let program = parse("a b # the rest (is ignored\r\n\r\nc").unwrap();
    let mut expected = Program::new();
    expected.push_clause(Clause {
        head: Term::Compound(CompoundTerm {
            name: SimpleTerm::Atom(String::from("a")),
            parameters: vec![atom("b")],
        }),
        body: Vec::new(),
    });
    expected.push_clause(Clause { head: atom("c"), body: Vec::new() });
    assert_eq!(expected, program);
}

#[test]
fn test_parse_empty_text() {
    assert_eq!(Ok(Program::new()), parse(""));
    assert_eq!(Ok(Program::new()), parse("\n\n  \n# nothing\n"));
}

#[test]
fn test_parse_rejects_what_is_no_clause() {
    assert_eq!(Err(ParseError {}), parse("a (b"));
    assert_eq!(Err(ParseError {}), parse("a b)"));
    assert_eq!(Err(ParseError {}), parse("a if"));
    assert_eq!(Err(ParseError {}), parse("a if b and"));
    assert_eq!(Err(ParseError {}), parse("if a"));
    assert_eq!(Err(ParseError {}), parse("a and b"));
    assert_eq!(Err(ParseError {}), parse("a if b if c"));
    assert_eq!(Err(ParseError {}), parse("a, b"));
    assert_eq!(Err(ParseError {}), parse("a ()"));
    assert_eq!(Err(ParseError {}), parse("b\na (b\nc"));
}

#[test]
fn test_construct_term_rejects_more_than_a_term() {
    assert_eq!(Err(ParseError {}), construct_term(""));
    assert_eq!(Err(ParseError {}), construct_term("a if b"));
    assert_eq!(Err(ParseError {}), construct_term("a\nb"));
    assert_eq!(Err(ParseError {}), construct_term("(a b)"));
    assert_eq!(Err(ParseError {}), construct_clause("a if b\nc"));
}

#[test]
fn test_names_with_digits_and_words_that_start_like_keywords() {
    assert_eq!(Ok(atom("iffy")), construct_term("iffy"));
    assert_eq!(Ok(atom("android9")), construct_term(" android9 "));
    assert_eq!(Ok(atom("9lives")), construct_term("9lives"));
    assert_eq!(Ok(variable("X_1")), construct_term("X_1"));
    assert_eq!(Ok(variable("_")), construct_term("_"));
}

#[test]
fn test_parentheses_around_a_name_are_the_name() {
    let term = construct_term("f (a) ( X )").unwrap();
    let expected = Term::Compound(CompoundTerm {
        name: SimpleTerm::Atom(String::from("f")),
        parameters: vec![atom("a"), variable("X")],
    });
    assert_eq!(expected, term);
}

#[test]
fn test_variable_as_functor() {
    let term = construct_term("F a").unwrap();
    let expected = Term::Compound(CompoundTerm {
        name: SimpleTerm::Variable(String::from("F")),
        parameters: vec![atom("a")],
    });
    assert_eq!(expected, term);
}
