use butterfly_pl::answer::Value;
use butterfly_pl::ast::{Clause, CompoundTerm, Program, Query, SimpleTerm, Term};
use butterfly_pl::compiler::Compiler;
use butterfly_pl::engine::Engine;
use butterfly_pl::error::EngineError;
use butterfly_pl::heap::{HeapEntry, HeapTag};
use butterfly_pl::search::{Limits, Progress};

fn atom(name: &str) -> Term {
    Term::Simple(SimpleTerm::Atom(String::from(name)))
}

fn variable(name: &str) -> Term {
    Term::Simple(SimpleTerm::Variable(String::from(name)))
}

fn compound(name: &str, parameters: Vec<Term>) -> Term {
    Term::Compound(CompoundTerm { name: SimpleTerm::Atom(String::from(name)), parameters })
}

fn fact(head: Term) -> Clause {
    Clause { head, body: Vec::new() }
}

fn roomy() -> Limits {
    Limits { heap: 100_000, trail: 100_000 }
}

/// Compiles the clauses and one query, and returns the engine together with
/// the position of the first cell of the query.
fn engine_for(clauses: Vec<Clause>, goals: Vec<Term>, limits: Limits) -> (Engine, usize) {
    let mut program = Program::new();
    for clause in clauses {
        program.push_clause(clause);
    }
    program.push_query(Query { sub_queries: goals });
    let mut compiler = Compiler::new();
    compiler.compile(program);
    let base = compiler.queries[0].base;
    (Engine::new(compiler, limits).unwrap(), base)
}

fn name_at(engine: &Engine, at: usize) -> String {
    let value = engine.value_at(at).unwrap();
    assert_eq!(HeapTag::Constant, value.tag);
    String::from(engine.symbol_table().get(value.data))
}

fn family() -> Vec<Clause> {
    vec![
        Clause {
            head: compound("parent", vec![variable("X"), variable("Y")]),
            body: vec![compound("father", vec![variable("X"), variable("Y")])],
        },
        fact(compound("father", vec![atom("tom"), atom("bob")])),
    ]
}

#[test]
fn test_query_of_a_fact_has_one_answer() {
    let clauses = vec![fact(atom("a")), fact(atom("b")), fact(atom("c"))];
    let (mut engine, _) = engine_for(clauses, vec![atom("a")], roomy());
    assert_eq!(Ok(true), engine.next_solution());
    assert_eq!(Ok(false), engine.next_solution());
    assert_eq!(Ok(false), engine.next_solution());
}

#[test]
fn test_query_of_an_unknown_atom_has_no_answer() {
    let clauses = vec![fact(atom("a")), fact(atom("b")), fact(atom("c"))];
    let (mut engine, _) = engine_for(clauses, vec![atom("d")], roomy());
    assert_eq!(Ok(false), engine.next_solution());
}

#[test]
fn test_rule_binds_the_query_variable() {
    let goal = compound("parent", vec![atom("tom"), variable("Z")]);
    let (mut engine, base) = engine_for(family(), vec![goal], roomy());
    assert_eq!(Ok(true), engine.next_solution());
    // The query lies at base: arity, functor, tom, Z.
    assert_eq!("bob", name_at(&engine, base + 3));
    assert_eq!("tom", name_at(&engine, base + 2));
    assert_eq!(Ok(false), engine.next_solution());
}

#[test]
fn test_rule_answers_a_ground_query() {
    let goal = compound("parent", vec![atom("tom"), atom("bob")]);
    let (mut engine, base) = engine_for(family(), vec![goal], roomy());
    assert_eq!(Ok(true), engine.next_solution());
    assert_eq!("tom", name_at(&engine, base + 2));
    assert_eq!("bob", name_at(&engine, base + 3));
    assert_eq!(Ok(false), engine.next_solution());
}

#[test]
fn test_rule_rejects_the_swapped_query() {
    let goal = compound("parent", vec![atom("bob"), atom("tom")]);
    let (mut engine, _) = engine_for(family(), vec![goal], roomy());
    assert_eq!(Ok(false), engine.next_solution());
}

#[test]
fn test_backtracking_finds_every_answer_in_clause_order() {
    let clauses = vec![
        fact(compound("father", vec![atom("tom"), atom("bob")])),
        fact(compound("father", vec![atom("jim"), atom("joe")])),
        fact(compound("father", vec![atom("tom"), atom("ann")])),
    ];
    let goal = compound("father", vec![atom("tom"), variable("Z")]);
    let (mut engine, base) = engine_for(clauses, vec![goal], roomy());
    assert_eq!(Ok(true), engine.next_solution());
    assert_eq!("bob", name_at(&engine, base + 3));
    assert_eq!(Ok(true), engine.next_solution());
    assert_eq!("ann", name_at(&engine, base + 3));
    assert_eq!(Ok(false), engine.next_solution());
}

#[test]
fn test_binding_is_undone_after_the_last_answer() {
    let clauses = vec![fact(compound("father", vec![atom("tom"), atom("bob")]))];
    let goal = compound("father", vec![atom("tom"), variable("Z")]);
    let (mut engine, base) = engine_for(clauses, vec![goal], roomy());
    let before = engine.heap().len();
    assert_eq!(Some(HeapEntry::new(HeapTag::Variable, base + 3)), engine.value_at(base + 3));
    assert_eq!(Ok(true), engine.next_solution());
    assert_eq!("bob", name_at(&engine, base + 3));
    assert_eq!(Ok(false), engine.next_solution());
    assert_eq!(HeapEntry::new(HeapTag::Variable, base + 3), engine.heap().read(base + 3));
    assert_eq!(before, engine.heap().len());
}

#[test]
fn test_conjunction_shares_its_variables() {
    let clauses = vec![
        Clause {
            head: compound("grandparent", vec![variable("X"), variable("Z")]),
            body: vec![
                compound("parent", vec![variable("X"), variable("Y")]),
                compound("parent", vec![variable("Y"), variable("Z")]),
            ],
        },
        fact(compound("parent", vec![atom("tom"), atom("bob")])),
        fact(compound("parent", vec![atom("tom"), atom("liz")])),
        fact(compound("parent", vec![atom("bob"), atom("ann")])),
        fact(compound("parent", vec![atom("bob"), atom("pat")])),
    ];
    let goal = compound("grandparent", vec![atom("tom"), variable("W")]);
    let (mut engine, base) = engine_for(clauses, vec![goal], roomy());
    assert_eq!(Ok(true), engine.next_solution());
    assert_eq!("ann", name_at(&engine, base + 3));
    assert_eq!(Ok(true), engine.next_solution());
    assert_eq!("pat", name_at(&engine, base + 3));
    assert_eq!(Ok(false), engine.next_solution());
}

#[test]
fn test_query_of_two_goals() {
    let clauses = vec![
        fact(compound("likes", vec![atom("ann"), atom("tea")])),
        fact(compound("likes", vec![atom("bob"), atom("tea")])),
        fact(compound("likes", vec![atom("bob"), atom("jam")])),
        fact(compound("sweet", vec![atom("jam")])),
    ];
    let goals = vec![
        compound("likes", vec![variable("Who"), variable("What")]),
        compound("sweet", vec![variable("What")]),
    ];
    let (mut engine, base) = engine_for(clauses, goals, roomy());
    assert_eq!(Ok(true), engine.next_solution());
    assert_eq!("bob", name_at(&engine, base + 2));
    assert_eq!("jam", name_at(&engine, base + 3));
    assert_eq!(Ok(false), engine.next_solution());
}

#[test]
fn test_nested_terms_unify() {
    let clauses = vec![fact(compound(
        "owns",
        vec![atom("ann"), compound("book", vec![atom("dune"), variable("Author")])],
    ))];
    let goal = compound(
        "owns",
        vec![variable("Who"), compound("book", vec![variable("Title"), atom("herbert")])],
    );
    let (mut engine, base) = engine_for(clauses, vec![goal], roomy());
    assert_eq!(Ok(true), engine.next_solution());
    // The query lies at base: arity, owns, Who, a reference to the book;
    // the book follows: arity, book, Title, herbert.
    assert_eq!("ann", name_at(&engine, base + 2));
    assert_eq!("dune", name_at(&engine, base + 6));
    assert_eq!(Ok(false), engine.next_solution());
}

#[test]
fn test_atom_does_not_match_compound_of_one_argument() {
    let clauses = vec![fact(compound("a", vec![atom("b")]))];
    let (mut engine, _) = engine_for(clauses, vec![atom("a")], roomy());
    assert_eq!(Ok(false), engine.next_solution());

    let clauses = vec![fact(atom("a"))];
    let (mut engine, _) = engine_for(clauses, vec![compound("a", vec![variable("X")])], roomy());
    assert_eq!(Ok(false), engine.next_solution());
}

#[test]
fn test_different_argument_counts_do_not_match() {
    let clauses = vec![fact(compound("p", vec![atom("a"), atom("b")]))];
    let (mut engine, _) = engine_for(clauses, vec![compound("p", vec![atom("a")])], roomy());
    assert_eq!(Ok(false), engine.next_solution());
}

#[test]
fn test_empty_query_is_answered_once() {
    let (mut engine, _) = engine_for(vec![fact(atom("a"))], Vec::new(), roomy());
    assert_eq!(Ok(true), engine.next_solution());
    assert_eq!(Ok(false), engine.next_solution());
}

#[test]
fn test_endless_rule_runs_out_of_room() {
    let clauses = vec![Clause { head: atom("loop"), body: vec![atom("loop")] }];
    let limits = Limits { heap: 40, trail: 100_000 };
    let (mut engine, _) = engine_for(clauses, vec![atom("loop")], limits);
    assert_eq!(Err(EngineError::ResourceExhausted), engine.next_solution());
}

#[test]
fn test_full_trail_is_reported() {
    let clauses = vec![fact(compound("p", vec![atom("a")]))];
    let limits = Limits { heap: 100_000, trail: 0 };
    let (mut engine, _) = engine_for(clauses, vec![compound("p", vec![variable("X")])], limits);
    assert_eq!(Err(EngineError::ResourceExhausted), engine.next_solution());
}

#[test]
fn test_terms_that_hold_themselves_run_out_of_room() {
    // `eq X X` with `eq Y (f Y), eq Z (f Z), eq Y Z`: Y and Z come to stand
    // for `f (f (f ...))`, and unifying the two never ends.
    let clauses = vec![fact(compound("eq", vec![variable("X"), variable("X")]))];
    let goals = vec![
        compound("eq", vec![variable("Y"), compound("f", vec![variable("Y")])]),
        compound("eq", vec![variable("Z"), compound("f", vec![variable("Z")])]),
        compound("eq", vec![variable("Y"), variable("Z")]),
    ];
    let (mut engine, _) = engine_for(clauses, goals, roomy());
    assert_eq!(Err(EngineError::ResourceExhausted), engine.next_solution());
}

#[test]
fn test_deeply_nested_terms_unify() {
    let nested = |depth: usize| {
        let mut term = atom("a");
        for _ in 0..depth {
            term = compound("f", vec![term]);
        }
        term
    };
    let (mut engine, _) = engine_for(vec![fact(nested(40))], vec![nested(40)], roomy());
    assert_eq!(Ok(true), engine.next_solution());
    assert_eq!(Ok(false), engine.next_solution());
}

#[test]
fn test_spines_with_marks_out_of_place_are_refused() {
    let compiled = || {
        let mut program = Program::new();
        program.push_clause(fact(atom("a")));
        program.push_query(Query { sub_queries: vec![atom("a")] });
        program.push_query(Query { sub_queries: vec![atom("a")] });
        let mut compiler = Compiler::new();
        compiler.compile(program);
        compiler
    };
    let tight = Limits { heap: 0, trail: 0 };
    assert!(Engine::new(compiled(), tight).is_ok());

    let mut compiler = compiled();
    compiler.spines[1].base = compiler.heap.len() + 1;
    assert!(matches!(
        Engine::new(compiler, roomy()),
        Err(EngineError::InternalInvariantViolation)
    ));

    let mut compiler = compiled();
    compiler.spines[0].base = compiler.spines[1].base;
    compiler.spines[1].base = 0;
    assert!(matches!(
        Engine::new(compiler, roomy()),
        Err(EngineError::InternalInvariantViolation)
    ));
}

#[test]
fn test_spine_with_too_many_clauses_is_refused() {
    let mut program = Program::new();
    program.push_clause(fact(atom("a")));
    program.push_query(Query { sub_queries: vec![atom("a")] });
    let mut compiler = Compiler::new();
    compiler.compile(program);
    compiler.spines[0].unifiable_clauses.push(0);
    assert!(matches!(
        Engine::new(compiler, roomy()),
        Err(EngineError::InternalInvariantViolation)
    ));
}

#[test]
fn test_queries_are_answered_in_order() {
    let mut program = Program::new();
    program.push_clause(fact(compound("p", vec![atom("a")])));
    program.push_clause(fact(compound("q", vec![atom("b")])));
    program.push_query(Query { sub_queries: vec![compound("p", vec![variable("X")])] });
    program.push_query(Query { sub_queries: vec![compound("q", vec![variable("Y")])] });
    let mut compiler = Compiler::new();
    compiler.compile(program);
    let first = compiler.queries[0].base;
    let second = compiler.queries[1].base;
    let mut engine = Engine::new(compiler, roomy()).unwrap();
    assert_eq!(Ok(true), engine.next_solution());
    assert_eq!("a", name_at(&engine, first + 2));
    assert_eq!(Ok(true), engine.next_solution());
    assert_eq!("b", name_at(&engine, second + 2));
    assert_eq!(Ok(false), engine.next_solution());
}

#[test]
fn test_steps_of_a_search() {
    let clauses = vec![fact(atom("a"))];
    let (mut engine, _) = engine_for(clauses, vec![atom("a")], roomy());
    // The clause is tried, its answer reported, its spine given up, the
    // spine of the query given up too.
    assert_eq!(Ok(Progress::Searching), engine.step());
    assert_eq!(Ok(Progress::Solution), engine.step());
    assert_eq!(Ok(Progress::Searching), engine.step());
    assert_eq!(Ok(Progress::Searching), engine.step());
    assert_eq!(Ok(Progress::Exhausted), engine.step());
    assert_eq!(Ok(Progress::Exhausted), engine.step());
}

fn named(name: &str) -> Value {
    Value::Atom(String::from(name))
}

#[test]
fn test_answer_is_the_query_with_its_variables_bound() {
    let goal = compound("parent", vec![atom("tom"), variable("Z")]);
    let (mut engine, base) = engine_for(family(), vec![goal], roomy());
    assert_eq!(1, engine.queries().len());
    assert_eq!(base, engine.queries()[0].terms[0].data);
    assert_eq!(
        Ok(Value::Compound(vec![named("parent"), named("tom"), Value::Unbound(base + 3)])),
        engine.read(base, 8)
    );
    assert_eq!(Ok(true), engine.next_solution());
    assert_eq!(
        Ok(Value::Compound(vec![named("parent"), named("tom"), named("bob")])),
        engine.read(base, 8)
    );
    assert_eq!(Ok(named("bob")), engine.read(base + 3, 0));
}

#[test]
fn test_answer_with_nested_and_open_terms() {
    let clauses = vec![fact(compound(
        "owns",
        vec![atom("ann"), compound("book", vec![atom("dune"), variable("Author")])],
    ))];
    let goal = compound("owns", vec![variable("Who"), variable("What")]);
    let (mut engine, base) = engine_for(clauses, vec![goal], roomy());
    let before = engine.heap().len();
    assert_eq!(Ok(true), engine.next_solution());
    // The clause was copied to where the heap ended; its variable is the
    // last cell of the copy.
    let author = before + 7;
    assert_eq!(
        Ok(Value::Compound(vec![
            named("owns"),
            named("ann"),
            Value::Compound(vec![named("book"), named("dune"), Value::Unbound(author)]),
        ])),
        engine.read(base, 8)
    );
    assert_eq!(Err(EngineError::ResourceExhausted), engine.read(base, 1));
    assert_eq!(Err(EngineError::InternalInvariantViolation), engine.read(1_000_000, 8));
}

#[test]
fn test_answer_of_a_bare_atom_is_the_atom() {
    let (mut engine, base) = engine_for(vec![fact(atom("a"))], vec![atom("a")], roomy());
    assert_eq!(Ok(true), engine.next_solution());
    assert_eq!(Ok(named("a")), engine.read(base, 1));
    assert_eq!(Err(EngineError::ResourceExhausted), engine.read(base, 0));
}

#[test]
fn test_start_compiles_and_searches() {
    let mut program = Program::new();
    for clause in family() {
        program.push_clause(clause);
    }
    program.push_query(Query {
        sub_queries: vec![compound("parent", vec![variable("Who"), atom("bob")])],
    });
    let mut engine = Engine::start(program, roomy());
    let goal = engine.queries()[0].terms[0].data;
    assert_eq!(Ok(true), engine.next_solution());
    assert_eq!(
        Ok(Value::Compound(vec![named("parent"), named("tom"), named("bob")])),
        engine.read(goal, 8)
    );
    assert_eq!(Ok(false), engine.next_solution());
}

#[test]
fn test_start_with_no_room_at_all() {
    let mut program = Program::new();
    program.push_clause(fact(atom("a")));
    program.push_query(Query { sub_queries: Vec::new() });
    program.push_query(Query { sub_queries: vec![atom("a")] });
    let mut engine = Engine::start(program, Limits { heap: 0, trail: 0 });
    // The query without goals is answered as it stands; the other needs a
    // copy of the fact, for which there is no room.
    assert_eq!(Ok(true), engine.next_solution());
    assert_eq!(Err(EngineError::ResourceExhausted), engine.next_solution());
}

#[test]
fn test_search_of_a_longer_program_reports_no_violation() {
    // Peano numbers: plus z Y Y; plus (s X) Y (s Z) if plus X Y Z.
    let number = |n: usize| {
        let mut term = atom("z");
        for _ in 0..n {
            term = compound("s", vec![term]);
        }
        term
    };
    let mut program = Program::new();
    program.push_clause(fact(compound("plus", vec![atom("z"), variable("Y"), variable("Y")])));
    program.push_clause(Clause {
        head: compound(
            "plus",
            vec![
                compound("s", vec![variable("X")]),
                variable("Y"),
                compound("s", vec![variable("Z")]),
            ],
        ),
        body: vec![compound("plus", vec![variable("X"), variable("Y"), variable("Z")])],
    });
    // Every way to write 3 as a sum.
    program.push_query(Query {
        sub_queries: vec![compound("plus", vec![variable("A"), variable("B"), number(3)])],
    });
    let mut engine = Engine::start(program, roomy());
    let goal = engine.queries()[0].terms[0].data;
    let read_number = |engine: &Engine, at: usize| {
        let mut value = engine.read(at, 16).unwrap();
        let mut count = 0;
        loop {
            match value {
                Value::Atom(name) => {
                    assert_eq!("z", name);
                    return count;
                }
                Value::Compound(mut parts) => {
                    assert_eq!(2, parts.len());
                    assert_eq!(named("s"), parts[0]);
                    value = parts.remove(1);
                    count += 1;
                }
                other => panic!("{:?}", other),
            }
        }
    };
    let mut sums = Vec::new();
    while engine.next_solution() == Ok(true) {
        sums.push((read_number(&engine, goal + 2), read_number(&engine, goal + 3)));
    }
    assert_eq!(vec![(0, 3), (1, 2), (2, 1), (3, 0)], sums);
    assert_eq!(Ok(false), engine.next_solution());
}

fn answers_from_text(text: &str, asked: &str) -> Vec<Vec<String>> {
    let mut program = butterfly_pl::parser::parse(text).unwrap();
    program.push_query(butterfly_pl::parser::construct_query(asked).unwrap());
    let mut engine = Engine::start(program, roomy());
    let goals: Vec<usize> = engine.queries()[0].terms.iter().map(|term| term.data).collect();
    let mut answers = Vec::new();
    while engine.next_solution() == Ok(true) {
        answers.push(goals.iter().map(|goal| show(&engine.read(*goal, 16).unwrap())).collect());
    }
    answers
}

fn show(value: &Value) -> String {
    match value {
        Value::Atom(name) => name.clone(),
        Value::Number(number) => format!("{}", number),
        Value::Unbound(_) => String::from("_"),
        Value::Compound(parts) => {
            let words: Vec<String> = parts.iter().map(show).collect();
            words.join(" ")
        }
    }
}

#[test]
fn test_facts_from_text() {
    let text = "a\nb\nc\n";
    assert_eq!(vec![vec![String::from("a")]], answers_from_text(text, "a"));
    assert!(answers_from_text(text, "d").is_empty());
}

#[test]
fn test_family_from_text() {
    let text = "# who is whose parent\nparent X Y if father X Y\nfather tom bob\n";
    assert_eq!(
        vec![vec![String::from("parent tom bob")]],
        answers_from_text(text, "parent tom Z")
    );
    assert_eq!(
        vec![vec![String::from("parent tom bob")]],
        answers_from_text(text, "parent tom bob")
    );
    assert!(answers_from_text(text, "parent bob tom").is_empty());
    assert_eq!(
        vec![vec![String::from("parent tom bob"), String::from("father tom bob")]],
        answers_from_text(text, "parent X Y and father X Y")
    );
}

#[test]
fn test_lists_from_text() {
    let text = "append nil L L\nappend (cons H T) L (cons H R) if append T L R\n";
    let answers = answers_from_text(text, "append X Y (cons a (cons b nil))");
    assert_eq!(
        vec![
            vec![String::from("append nil cons a cons b nil cons a cons b nil")],
            vec![String::from("append cons a nil cons b nil cons a cons b nil")],
            vec![String::from("append cons a cons b nil nil cons a cons b nil")],
        ],
        answers
    );
}

#[test]
fn test_permutations_from_text() {
    let text = "select X (cons X T) T\n\
                select X (cons H T) (cons H R) if select X T R\n\
                perm nil nil\n\
                perm L (cons H T) if select H L R and perm R T\n";
    let mut program = butterfly_pl::parser::parse(text).unwrap();
    program.push_query(
        butterfly_pl::parser::construct_query("perm (cons a (cons b (cons c nil))) P").unwrap(),
    );
    let mut engine = Engine::start(program, roomy());
    let goal = engine.queries()[0].terms[0].data;
    let mut found = Vec::new();
    while engine.next_solution() == Ok(true) {
        // The goal lies at its base: arity, perm, the list, P.
        let mut letters = String::new();
        let mut list = engine.read(goal + 3, 16).unwrap();
        loop {
            match list {
                Value::Atom(name) => {
                    assert_eq!("nil", name);
                    break;
                }
                Value::Compound(mut parts) => {
                    assert_eq!(3, parts.len());
                    assert_eq!(named("cons"), parts[0]);
                    list = parts.remove(2);
                    letters.push_str(&show(&parts[1]));
                }
                other => panic!("{:?}", other),
            }
        }
        found.push(letters);
    }
    assert_eq!(vec!["abc", "acb", "bac", "bca", "cab", "cba"], found);
    assert_eq!(Ok(false), engine.next_solution());
    // Everything that the search has bound is unbound again, and everything
    // that it has copied is gone.
    assert_eq!(Ok(Value::Unbound(goal + 3)), engine.read(goal + 3, 16));
    assert_eq!(goal + 16, engine.heap().len());
}

fn bound(name: &str, value: Value) -> butterfly_pl::answer::Binding {
    butterfly_pl::answer::Binding { name: String::from(name), value }
}

#[test]
fn test_answer_binds_the_variables_of_the_query() {
    let goal = compound("parent", vec![atom("tom"), variable("Z")]);
    let (mut engine, base) = engine_for(family(), vec![goal], roomy());
    assert_eq!(Ok(vec![bound("Z", Value::Unbound(base + 3))]), engine.bindings(0, 8));
    assert_eq!(Ok(true), engine.next_solution());
    assert_eq!(Ok(vec![bound("Z", named("bob"))]), engine.bindings(0, 8));
    assert_eq!(Ok(false), engine.next_solution());
    assert_eq!(Ok(vec![bound("Z", Value::Unbound(base + 3))]), engine.bindings(0, 8));
    assert_eq!(Err(EngineError::InternalInvariantViolation), engine.bindings(1, 8));
}

#[test]
fn test_answer_of_a_ground_query_binds_nothing() {
    let goal = compound("parent", vec![atom("tom"), atom("bob")]);
    let (mut engine, _) = engine_for(family(), vec![goal], roomy());
    assert_eq!(Ok(true), engine.next_solution());
    assert_eq!(Ok(Vec::new()), engine.bindings(0, 8));
}

#[test]
fn test_variables_are_listed_once_in_the_order_they_are_met() {
    let clauses = vec![
        fact(compound("likes", vec![atom("bob"), compound("dish", vec![atom("jam")])])),
        fact(compound("sweet", vec![atom("jam")])),
    ];
    let goals = vec![
        compound("likes", vec![variable("Who"), compound("dish", vec![variable("What")])]),
        compound("sweet", vec![variable("What")]),
        compound("likes", vec![variable("Who"), variable("_")]),
    ];
    let mut program = Program::new();
    for clause in clauses {
        program.push_clause(clause);
    }
    program.push_query(Query { sub_queries: goals });
    let mut compiler = Compiler::new();
    compiler.compile(program);
    let base = compiler.queries[0].base;
    // likes Who _ lies at the base, dish What after it.
    let listed: Vec<(String, usize)> = compiler.query_variables[0]
        .iter()
        .map(|variable| (variable.name.clone(), variable.cell))
        .collect();
    assert_eq!(
        vec![
            (String::from("Who"), base + 2),
            (String::from("What"), base + 6),
            (String::from("_"), base + 13),
        ],
        listed
    );
    let mut engine = Engine::new(compiler, roomy()).unwrap();
    assert_eq!(Ok(true), engine.next_solution());
    assert_eq!(
        Ok(vec![
            bound("Who", named("bob")),
            bound("What", named("jam")),
            bound("_", Value::Compound(vec![named("dish"), named("jam")])),
        ]),
        engine.bindings(0, 8)
    );
    assert_eq!(Err(EngineError::ResourceExhausted), engine.read(base, 0));
}

#[test]
fn test_start_lays_the_program_out_on_an_empty_heap() {
    let mut program = Program::new();
    for clause in family() {
        program.push_clause(clause);
    }
    program.push_query(Query {
        sub_queries: vec![compound("parent", vec![atom("tom"), variable("Z")])],
    });
    let engine = Engine::start(program, roomy());
    let names: Vec<String> =
        ["parent", "father", "tom", "bob"].iter().map(|name| String::from(*name)).collect();
    assert_eq!(&names, engine.symbol_table().names());
    // `parent X Y` at 0, `father X Y` at 4, `father tom bob` at 8, the query at 12.
    assert_eq!(16, engine.heap().len());
    assert_eq!(HeapEntry::new(HeapTag::Arity, 2), engine.heap().read(0));
    assert_eq!(HeapEntry::new(HeapTag::Constant, 0), engine.heap().read(1));
    assert_eq!(HeapEntry::new(HeapTag::Constant, 0), engine.heap().read(13));
    assert_eq!(HeapEntry::new(HeapTag::Constant, 2), engine.heap().read(14));
    assert_eq!(HeapEntry::new(HeapTag::Variable, 15), engine.heap().read(15));
    assert_eq!(1, engine.queries().len());
    assert_eq!(12, engine.queries()[0].base);
    assert_eq!(4, engine.queries()[0].length);
}
