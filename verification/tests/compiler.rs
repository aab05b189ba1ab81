use butterfly_pl::ast::{Clause, CompoundTerm, Program, Query, SimpleTerm, Term};
use butterfly_pl::compiler::{ClauseDescriptor, Compiler, QueryDescriptor, Spine};
use butterfly_pl::heap::{HeapEntry, HeapTag};

/**
 * Returns a Term representing "a (a (b e f)) c"
 */
fn make_compound_term() -> Term {
    let mut parameters = Vec::new();
    parameters.push(Term::Simple(SimpleTerm::Atom(String::from("e"))));
    parameters.push(Term::Simple(SimpleTerm::Atom(String::from("f"))));
    let arg1 = Term::Compound(CompoundTerm {
        name: SimpleTerm::Atom(String::from("b")),
        parameters,
    });

    let mut parameters = Vec::new();
    parameters.push(arg1);
    let arg2 = Term::Compound(CompoundTerm {
        name: SimpleTerm::Atom(String::from("a")),
        parameters,
    });

    let mut parameters = Vec::new();
    parameters.push(arg2);
    parameters.push(Term::Simple(SimpleTerm::Atom(String::from("c"))));

    Term::Compound(CompoundTerm {
        name: SimpleTerm::Atom(String::from("a")),
        parameters,
    })
}

#[test]
fn test_compile_atom() {
    let mut program = Program::new();

    let head = Term::Simple(SimpleTerm::Atom(String::from("a")));
    let mut body = Vec::new();
    body.push(Term::Simple(SimpleTerm::Atom(String::from("b"))));
    body.push(Term::Simple(SimpleTerm::Atom(String::from("c"))));
    program.push_clause(Clause { head, body });

    let head = Term::Simple(SimpleTerm::Atom(String::from("b")));
    let body = Vec::new();
    program.push_clause(Clause { head, body });

    let head = Term::Simple(SimpleTerm::Atom(String::from("c")));
    let body = Vec::new();
    program.push_clause(Clause { head, body });

    let mut compiler = Compiler::new();
    compiler.compile(program);

    let expected_heap = vec![
        HeapEntry::new(HeapTag::Arity, 1),
        HeapEntry::new(HeapTag::Constant, 0),
        HeapEntry::new(HeapTag::Arity, 1),
        HeapEntry::new(HeapTag::Constant, 1),
        HeapEntry::new(HeapTag::Arity, 1),
        HeapEntry::new(HeapTag::Constant, 2),
        HeapEntry::new(HeapTag::Arity, 1),
        HeapEntry::new(HeapTag::Constant, 1),
        HeapEntry::new(HeapTag::Arity, 1),
        HeapEntry::new(HeapTag::Constant, 2),
    ];

    for i in 0..expected_heap.len() {
        assert_eq!(expected_heap[i], compiler.heap.read(i));
    }

    assert_eq!(compiler.symbol_table.get(0), "a");
    assert_eq!(compiler.symbol_table.get(1), "b");
    assert_eq!(compiler.symbol_table.get(2), "c");
}

#[test]
fn test_compile_variable() {
    let mut program = Program::new();

    let head = Term::Simple(SimpleTerm::Atom(String::from("a")));
    let mut body = Vec::new();
    body.push(Term::Simple(SimpleTerm::Variable(String::from("B"))));
    body.push(Term::Simple(SimpleTerm::Variable(String::from("C"))));
    body.push(Term::Simple(SimpleTerm::Variable(String::from("B"))));
    program.push_clause(Clause { head, body });

    // The variable "B" in this clause should be considered different from B
    // in previous clause.
    let head = Term::Simple(SimpleTerm::Atom(String::from("a")));
    let mut body = Vec::new();
    body.push(Term::Simple(SimpleTerm::Variable(String::from("B"))));
    program.push_clause(Clause { head, body });

    let mut compiler = Compiler::new();
    compiler.compile(program);

    let expected_heap = vec![
        HeapEntry::new(HeapTag::Arity, 1),
        HeapEntry::new(HeapTag::Constant, 0),
        HeapEntry::new(HeapTag::Arity, 1),
        HeapEntry::new(HeapTag::Variable, 3),
        HeapEntry::new(HeapTag::Arity, 1),
        HeapEntry::new(HeapTag::Variable, 5),
        HeapEntry::new(HeapTag::Arity, 1),
        HeapEntry::new(HeapTag::Unify, 3),
        HeapEntry::new(HeapTag::Arity, 1),
        HeapEntry::new(HeapTag::Constant, 0),
        HeapEntry::new(HeapTag::Arity, 1),
        HeapEntry::new(HeapTag::Variable, 11),
    ];

    for i in 0..expected_heap.len() {
        assert_eq!(expected_heap[i], compiler.heap.read(i));
    }
}

#[test]
fn test_compile_compound_term() {
    let mut program = Program::new();
    let head = make_compound_term();
    program.push_clause(Clause { head, body: Vec::new() });

    let mut compiler = Compiler::new();
    compiler.compile(program);

    let expected_heap = vec![
        // 0: a _4 c
        HeapEntry::new(HeapTag::Arity, 2),
        HeapEntry::new(HeapTag::Constant, 0),
        HeapEntry::new(HeapTag::Reference, 4),
        HeapEntry::new(HeapTag::Constant, 4),
        // 4: a _7
        HeapEntry::new(HeapTag::Arity, 1),
        HeapEntry::new(HeapTag::Constant, 0),
        HeapEntry::new(HeapTag::Reference, 7),
        // 7: b e f
        HeapEntry::new(HeapTag::Arity, 2),
        HeapEntry::new(HeapTag::Constant, 1),
        HeapEntry::new(HeapTag::Constant, 2),
        HeapEntry::new(HeapTag::Constant, 3),
    ];

    for i in 0..expected_heap.len() {
        assert_eq!(expected_heap[i], compiler.heap.read(i));
    }
    assert_eq!(expected_heap.len(), compiler.heap.len());
}

#[test]
fn test_compile_clause_and_query() {
    let mut program = Program::new();
    let head = make_compound_term();
    let mut body = Vec::new();
    body.push(Term::Simple(SimpleTerm::Atom(String::from("x"))));
    body.push(Term::Simple(SimpleTerm::Variable(String::from("Y"))));
    program.push_clause(Clause { head, body });

    let mut sub_queries = Vec::new();
    sub_queries.push(Term::Simple(SimpleTerm::Atom(String::from("a"))));
    sub_queries.push(Term::Simple(SimpleTerm::Atom(String::from("b"))));
    program.push_query(Query { sub_queries });

    println!("ast: {:?}", program);
    let mut compiler = Compiler::new();
    compiler.compile(program);

    println!("heap: {:?}", compiler.heap);
    println!("symbol_table: {:?}", compiler.symbol_table.names());
    println!("clauses: {:?}", compiler.clauses);

    let expected_heap = vec![
        // 0: a _4 c
        HeapEntry::new(HeapTag::Arity, 2),
        HeapEntry::new(HeapTag::Constant, 0),
        HeapEntry::new(HeapTag::Reference, 4),
        HeapEntry::new(HeapTag::Constant, 4),
        // 4: a _7
        HeapEntry::new(HeapTag::Arity, 1),
        HeapEntry::new(HeapTag::Constant, 0),
        HeapEntry::new(HeapTag::Reference, 7),
        // 7: b e f
        HeapEntry::new(HeapTag::Arity, 2),
        HeapEntry::new(HeapTag::Constant, 1),
        HeapEntry::new(HeapTag::Constant, 2),
        HeapEntry::new(HeapTag::Constant, 3),
        // 11: x
        HeapEntry::new(HeapTag::Arity, 1),
        HeapEntry::new(HeapTag::Constant, 5),
        // 13: y
        HeapEntry::new(HeapTag::Arity, 1),
        HeapEntry::new(HeapTag::Variable, 14),
        // Start of query
        // 15: a
        HeapEntry::new(HeapTag::Arity, 1),
        HeapEntry::new(HeapTag::Constant, 0),
        // 17: b
        HeapEntry::new(HeapTag::Arity, 1),
        HeapEntry::new(HeapTag::Constant, 1),
    ];

    for i in 0..expected_heap.len() {
        assert_eq!(expected_heap[i], compiler.heap.read(i));
    }

    let expected_clause = ClauseDescriptor {
        base: 0,
        length: 15,
        neck: 11,
        terms: vec![
            HeapEntry { tag: HeapTag::Reference, data: 0 },
            HeapEntry { tag: HeapTag::Reference, data: 11 },
            HeapEntry { tag: HeapTag::Reference, data: 13 },
        ],
        head_subterms: vec![expected_heap[4], expected_heap[3]],
    };

    assert_eq!(expected_clause, compiler.clauses[0]);

    let expected_query = QueryDescriptor {
        base: 15,
        length: 4,
        terms: vec![
            HeapEntry { tag: HeapTag::Reference, data: 15 },
            HeapEntry { tag: HeapTag::Reference, data: 17 },
        ],
    };

    assert_eq!(expected_query, compiler.queries[0]);

    let expected_spine = Spine::new(19, 0, expected_query.terms.clone(), vec![0], 0);

    assert_eq!(expected_spine, compiler.spines[0]);
}

fn atom(name: &str) -> Term {
    Term::Simple(SimpleTerm::Atom(String::from(name)))
}

fn variable(name: &str) -> Term {
    Term::Simple(SimpleTerm::Variable(String::from(name)))
}

fn compound(name: &str, parameters: Vec<Term>) -> Term {
    Term::Compound(CompoundTerm { name: SimpleTerm::Atom(String::from(name)), parameters })
}

fn compiled(clauses: Vec<Clause>, queries: Vec<Query>) -> Compiler {
    let mut program = Program::new();
    for clause in clauses {
        program.push_clause(clause);
    }
    for query in queries {
        program.push_query(query);
    }
    let mut compiler = Compiler::new();
    compiler.compile(program);
    compiler
}

fn cells(compiler: &Compiler) -> Vec<(HeapTag, usize)> {
    compiler.heap.entries().iter().map(|entry| (entry.tag, entry.data)).collect()
}

#[test]
fn test_fact_of_an_atom_takes_two_cells() {
    let compiler = compiled(vec![Clause { head: atom("a"), body: Vec::new() }], Vec::new());
    assert_eq!(vec![(HeapTag::Arity, 1), (HeapTag::Constant, 0)], cells(&compiler));
    assert_eq!(1, compiler.symbol_table.len());
    assert_eq!(
        ClauseDescriptor {
            base: 0,
            length: 2,
            neck: 2,
            terms: vec![HeapEntry::new(HeapTag::Reference, 0)],
            head_subterms: vec![HeapEntry::new(HeapTag::Constant, 0)],
        },
        compiler.clauses[0]
    );
}

#[test]
fn test_atom_keeps_its_id_across_clauses() {
    let compiler = compiled(
        vec![
            Clause { head: compound("p", vec![atom("a"), atom("b")]), body: vec![atom("a")] },
            Clause { head: compound("q", vec![atom("b"), atom("p")]), body: vec![atom("q")] },
        ],
        vec![Query { sub_queries: vec![compound("p", vec![atom("b"), atom("a")])] }],
    );
    assert_eq!(
        vec![
            (HeapTag::Arity, 2),
            (HeapTag::Constant, 0),
            (HeapTag::Constant, 1),
            (HeapTag::Constant, 2),
            (HeapTag::Arity, 1),
            (HeapTag::Constant, 1),
            (HeapTag::Arity, 2),
            (HeapTag::Constant, 3),
            (HeapTag::Constant, 2),
            (HeapTag::Constant, 0),
            (HeapTag::Arity, 1),
            (HeapTag::Constant, 3),
            (HeapTag::Arity, 2),
            (HeapTag::Constant, 0),
            (HeapTag::Constant, 2),
            (HeapTag::Constant, 1),
        ],
        cells(&compiler)
    );
    assert_eq!(
        &vec![String::from("p"), String::from("a"), String::from("b"), String::from("q")],
        compiler.symbol_table.names()
    );
}

#[test]
fn test_later_occurrence_points_to_the_first_wherever_it_lies() {
    // f (g X) X: the first X lies in the nested block, above its alias.
    let head = compound("f", vec![compound("g", vec![variable("X")]), variable("X")]);
    let compiler = compiled(vec![Clause { head, body: vec![variable("X")] }], Vec::new());
    assert_eq!(
        vec![
            (HeapTag::Arity, 2),
            (HeapTag::Constant, 0),
            (HeapTag::Reference, 4),
            (HeapTag::Unify, 6),
            (HeapTag::Arity, 1),
            (HeapTag::Constant, 1),
            (HeapTag::Variable, 6),
            (HeapTag::Arity, 1),
            (HeapTag::Unify, 6),
        ],
        cells(&compiler)
    );
    assert_eq!(
        vec![HeapEntry::new(HeapTag::Arity, 1), HeapEntry::new(HeapTag::Variable, 6)],
        compiler.clauses[0].head_subterms
    );
}

#[test]
fn test_query_has_a_scope_of_its_own() {
    let compiler = compiled(
        vec![Clause { head: compound("p", vec![variable("X")]), body: Vec::new() }],
        vec![
            Query { sub_queries: vec![compound("p", vec![variable("X")]), variable("X")] },
            Query { sub_queries: vec![variable("X")] },
        ],
    );
    assert_eq!(
        vec![
            (HeapTag::Arity, 1),
            (HeapTag::Constant, 0),
            (HeapTag::Variable, 2),
            (HeapTag::Arity, 1),
            (HeapTag::Constant, 0),
            (HeapTag::Variable, 5),
            (HeapTag::Arity, 1),
            (HeapTag::Unify, 5),
            (HeapTag::Arity, 1),
            (HeapTag::Variable, 9),
        ],
        cells(&compiler)
    );
    assert_eq!(
        vec![
            QueryDescriptor {
                base: 3,
                length: 5,
                terms: vec![
                    HeapEntry::new(HeapTag::Reference, 3),
                    HeapEntry::new(HeapTag::Reference, 6)
                ],
            },
            QueryDescriptor {
                base: 8,
                length: 2,
                terms: vec![HeapEntry::new(HeapTag::Reference, 8)],
            },
        ],
        compiler.queries
    );
    // The spine of the last query lies lowest, so that the first is searched
    // first.
    assert_eq!(
        vec![
            Spine::new(10, 0, vec![HeapEntry::new(HeapTag::Reference, 8)], vec![0], 0),
            Spine::new(
                10,
                0,
                vec![HeapEntry::new(HeapTag::Reference, 3), HeapEntry::new(HeapTag::Reference, 6)],
                vec![0],
                0
            ),
        ],
        compiler.spines
    );
    assert!(compiler.trail.is_empty());
}

#[test]
fn test_descriptors_of_clauses_in_a_row() {
    let compiler = compiled(
        vec![
            Clause { head: atom("a"), body: vec![atom("b"), atom("c")] },
            Clause { head: compound("b", vec![atom("x")]), body: Vec::new() },
            Clause { head: atom("c"), body: vec![compound("b", vec![variable("Y")])] },
        ],
        Vec::new(),
    );
    let bases: Vec<usize> = compiler.clauses.iter().map(|clause| clause.base).collect();
    let necks: Vec<usize> = compiler.clauses.iter().map(|clause| clause.neck).collect();
    let lengths: Vec<usize> = compiler.clauses.iter().map(|clause| clause.length).collect();
    assert_eq!(vec![0, 6, 9], bases);
    assert_eq!(vec![2, 9, 11], necks);
    assert_eq!(vec![6, 3, 5], lengths);
    for clause in &compiler.clauses {
        assert_eq!(HeapEntry::new(HeapTag::Reference, clause.base), clause.terms[0]);
        assert!(clause.base < clause.neck && clause.neck <= clause.base + clause.length);
        for term in &clause.terms {
            assert_eq!(HeapTag::Arity, compiler.heap.read(term.data).tag);
        }
    }
    assert_eq!(14, compiler.heap.len());
    assert!(compiler.spines.is_empty());
}

#[test]
fn test_compound_without_parameters() {
    let compiler = compiled(
        vec![Clause { head: compound("f", vec![compound("g", Vec::new())]), body: Vec::new() }],
        Vec::new(),
    );
    assert_eq!(
        vec![
            (HeapTag::Arity, 1),
            (HeapTag::Constant, 0),
            (HeapTag::Reference, 3),
            (HeapTag::Arity, 0),
            (HeapTag::Constant, 1),
        ],
        cells(&compiler)
    );
}

#[test]
fn test_variable_as_a_functor() {
    let head = Term::Compound(CompoundTerm {
        name: SimpleTerm::Variable(String::from("F")),
        parameters: vec![variable("F"), atom("a")],
    });
    let compiler = compiled(vec![Clause { head, body: Vec::new() }], Vec::new());
    assert_eq!(
        vec![
            (HeapTag::Arity, 2),
            (HeapTag::Variable, 1),
            (HeapTag::Unify, 1),
            (HeapTag::Constant, 0),
        ],
        cells(&compiler)
    );
}

#[test]
fn test_compile_in_steps() {
    let mut compiler = Compiler::new();
    assert_eq!(0, compiler.compile_term(&compound("f", vec![atom("a")])));
    assert_eq!(3, compiler.compile_term(&variable("X")));
    assert_eq!(4, compiler.compile_goal(&variable("X")));
    compiler.create_arity_entry_for_simple_term();
    assert_eq!(7, compiler.compile_simple_term(&SimpleTerm::Atom(String::from("a"))));
    compiler.compile_simple_term_no_alloc(&SimpleTerm::Atom(String::from("b")), 3);
    assert_eq!(
        vec![
            (HeapTag::Arity, 1),
            (HeapTag::Constant, 0),
            (HeapTag::Constant, 1),
            (HeapTag::Constant, 2),
            (HeapTag::Arity, 1),
            (HeapTag::Unify, 3),
            (HeapTag::Arity, 1),
            (HeapTag::Constant, 1),
        ],
        cells(&compiler)
    );
    compiler.compile_clause(&Clause { head: variable("X"), body: Vec::new() });
    assert_eq!(HeapEntry::new(HeapTag::Variable, 9), compiler.heap.read(9));
    compiler.compile_query(&Query { sub_queries: Vec::new() });
    assert_eq!(QueryDescriptor { base: 10, length: 0, terms: Vec::new() }, compiler.queries[0]);
    compiler.create_initial_spine();
    assert_eq!(vec![Spine::new(10, 0, Vec::new(), vec![0], 0)], compiler.spines);
}

#[test]
fn test_nested_blocks_follow_in_the_order_of_the_parameters() {
    // `f (g (h a)) X (k b)`: the block of `g` with that of `h` behind it,
    // and only then the block of `k`.
    let term = CompoundTerm {
        name: SimpleTerm::Atom(String::from("f")),
        parameters: vec![
            compound("g", vec![compound("h", vec![atom("a")])]),
            variable("X"),
            compound("k", vec![atom("b")]),
        ],
    };
    let mut compiler = Compiler::new();
    assert_eq!(0, compiler.compile_compound_term(&term));
    assert_eq!(
        vec![
            (HeapTag::Arity, 3),
            (HeapTag::Constant, 0),
            (HeapTag::Reference, 5),
            (HeapTag::Variable, 3),
            (HeapTag::Reference, 11),
            (HeapTag::Arity, 1),
            (HeapTag::Constant, 1),
            (HeapTag::Reference, 8),
            (HeapTag::Arity, 1),
            (HeapTag::Constant, 2),
            (HeapTag::Constant, 3),
            (HeapTag::Arity, 1),
            (HeapTag::Constant, 4),
            (HeapTag::Constant, 5),
        ],
        cells(&compiler)
    );
    assert_eq!(14, compiler.compile_compound_term(&term));
    assert_eq!(28, compiler.heap.len());
}
