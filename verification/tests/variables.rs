use butterfly_pl::ast::{CompoundTerm, SimpleTerm, Term};
use butterfly_pl::variables::variable_names;

fn atom(name: &str) -> Term {
    Term::Simple(SimpleTerm::Atom(String::from(name)))
}

fn variable(name: &str) -> Term {
    Term::Simple(SimpleTerm::Variable(String::from(name)))
}

#[test]
fn test_variable_names() {
    assert!(variable_names(&Vec::new()).is_empty());
    assert!(variable_names(&vec![atom("a")]).is_empty());
    let nested = Term::Compound(CompoundTerm {
        name: SimpleTerm::Variable(String::from("F")),
        parameters: vec![
            variable("X"),
            Term::Compound(CompoundTerm {
                name: SimpleTerm::Atom(String::from("g")),
                parameters: vec![variable("Y"), variable("X"), atom("a")],
            }),
            variable("F"),
        ],
    });
    assert_eq!(
        vec!["Z", "F", "X", "Y", "W"],
        variable_names(&vec![variable("Z"), nested, variable("Y"), variable("W")])
    );
}
