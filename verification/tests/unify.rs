use butterfly_pl::ast::{CompoundTerm, SimpleTerm, Term};
use butterfly_pl::compiler::Compiler;
use butterfly_pl::error::EngineError;
use butterfly_pl::heap::{Heap, HeapEntry, HeapTag};
use butterfly_pl::store::{bind, resolve_at, unwind_trail};
use butterfly_pl::unify::unify;

fn heap_of(cells: &[(HeapTag, usize)]) -> Heap {
    let mut heap = Heap::new();
    heap.allocate(cells.len());
    for (at, (tag, data)) in cells.iter().enumerate() {
        heap.write(at, HeapEntry::new(*tag, *data));
    }
    heap
}

fn cells_of(heap: &Heap) -> Vec<HeapEntry> {
    heap.entries().clone()
}

/// Two copies of `f (g a) b`, at 0 and at 7.
fn twins() -> Heap {
    heap_of(&[
        (HeapTag::Arity, 2),
        (HeapTag::Constant, 0),
        (HeapTag::Reference, 4),
        (HeapTag::Constant, 3),
        (HeapTag::Arity, 1),
        (HeapTag::Constant, 1),
        (HeapTag::Constant, 2),
        (HeapTag::Arity, 2),
        (HeapTag::Constant, 0),
        (HeapTag::Reference, 11),
        (HeapTag::Constant, 3),
        (HeapTag::Arity, 1),
        (HeapTag::Constant, 1),
        (HeapTag::Constant, 2),
    ])
}

#[test]
fn test_unify_ground_twins_leaves_heap_and_trail() {
    let mut heap = twins();
    let before = cells_of(&heap);
    let mut trail = vec![5, 6];
    assert_eq!(Ok(true), unify(&mut heap, &mut trail, 0, 7, 100));
    assert_eq!(vec![5, 6], trail);
    assert_eq!(before, cells_of(&heap));
}

#[test]
fn test_unify_ground_terms_that_differ() {
    let mut heap = twins();
    heap.write(13, HeapEntry::new(HeapTag::Constant, 9));
    let mut trail = Vec::new();
    assert_eq!(Ok(false), unify(&mut heap, &mut trail, 0, 7, 100));
    assert!(trail.is_empty());

    let mut heap = twins();
    heap.write(8, HeapEntry::new(HeapTag::Constant, 9));
    assert_eq!(Ok(false), unify(&mut heap, &mut trail, 0, 7, 100));
}

#[test]
fn test_unify_variable_with_itself_trails_nothing() {
    // A variable, an alias of it, and a second alias.
    let mut heap = heap_of(&[(HeapTag::Variable, 0), (HeapTag::Unify, 0), (HeapTag::Unify, 1)]);
    let before = cells_of(&heap);
    let mut trail = Vec::new();
    assert_eq!(Ok(true), unify(&mut heap, &mut trail, 0, 0, 100));
    assert_eq!(Ok(true), unify(&mut heap, &mut trail, 1, 2, 100));
    assert_eq!(Ok(true), unify(&mut heap, &mut trail, 2, 0, 0));
    assert!(trail.is_empty());
    assert_eq!(before, cells_of(&heap));
}

#[test]
fn test_unify_binds_the_higher_of_two_variables() {
    let mut heap = heap_of(&[(HeapTag::Variable, 0), (HeapTag::Variable, 1)]);
    let mut trail = Vec::new();
    assert_eq!(Ok(true), unify(&mut heap, &mut trail, 0, 1, 100));
    assert_eq!(vec![1], trail);
    assert_eq!(HeapEntry::new(HeapTag::Variable, 0), heap.read(0));
    assert_eq!(HeapEntry::new(HeapTag::Unify, 0), heap.read(1));

    let mut heap = heap_of(&[(HeapTag::Variable, 0), (HeapTag::Variable, 1)]);
    let mut trail = Vec::new();
    assert_eq!(Ok(true), unify(&mut heap, &mut trail, 1, 0, 100));
    assert_eq!(vec![1], trail);
    assert_eq!(HeapEntry::new(HeapTag::Unify, 0), heap.read(1));
}

#[test]
fn test_unify_binds_variable_to_constant_and_to_block() {
    let mut heap = heap_of(&[
        (HeapTag::Variable, 0),
        (HeapTag::Constant, 4),
        (HeapTag::Variable, 2),
        (HeapTag::Arity, 1),
        (HeapTag::Constant, 0),
        (HeapTag::Constant, 1),
    ]);
    let mut trail = Vec::new();
    assert_eq!(Ok(true), unify(&mut heap, &mut trail, 0, 1, 100));
    assert_eq!(HeapEntry::new(HeapTag::Unify, 1), heap.read(0));
    assert_eq!(Ok(true), unify(&mut heap, &mut trail, 3, 2, 100));
    assert_eq!(HeapEntry::new(HeapTag::Reference, 3), heap.read(2));
    assert_eq!(vec![0, 2], trail);
    assert_eq!(Some(1), resolve_at(&heap, 0));
    assert_eq!(Some(3), resolve_at(&heap, 2));
}

#[test]
fn test_unify_constants_and_numbers() {
    let mut heap = heap_of(&[
        (HeapTag::Constant, 1),
        (HeapTag::Constant, 1),
        (HeapTag::Constant, 2),
        (HeapTag::Number, 1),
        (HeapTag::Number, 1),
        (HeapTag::Number, 7),
        (HeapTag::Uninitialized, 0),
    ]);
    let mut trail = Vec::new();
    assert_eq!(Ok(true), unify(&mut heap, &mut trail, 0, 1, 100));
    assert_eq!(Ok(false), unify(&mut heap, &mut trail, 0, 2, 100));
    assert_eq!(Ok(true), unify(&mut heap, &mut trail, 3, 4, 100));
    assert_eq!(Ok(false), unify(&mut heap, &mut trail, 3, 5, 100));
    assert_eq!(Ok(false), unify(&mut heap, &mut trail, 0, 3, 100));
    assert_eq!(Ok(false), unify(&mut heap, &mut trail, 0, 6, 100));
    assert!(trail.is_empty());
}

#[test]
fn test_unify_leaves_earlier_bindings_after_a_failure() {
    // `f X b` at 0 against `f a c` at 4: X is bound before b meets c.
    let mut heap = heap_of(&[
        (HeapTag::Arity, 2),
        (HeapTag::Constant, 0),
        (HeapTag::Variable, 2),
        (HeapTag::Constant, 2),
        (HeapTag::Arity, 2),
        (HeapTag::Constant, 0),
        (HeapTag::Constant, 1),
        (HeapTag::Constant, 3),
    ]);
    let before = cells_of(&heap);
    let mut trail = Vec::new();
    assert_eq!(Ok(false), unify(&mut heap, &mut trail, 0, 4, 100));
    assert_eq!(vec![2], trail);
    assert_eq!(HeapEntry::new(HeapTag::Unify, 6), heap.read(2));
    unwind_trail(&mut heap, &mut trail, 0);
    assert!(trail.is_empty());
    assert_eq!(before, cells_of(&heap));
}

#[test]
fn test_bound_variable_is_unbound_again_after_unwinding() {
    let mut heap = heap_of(&[(HeapTag::Variable, 0), (HeapTag::Constant, 4), (HeapTag::Variable, 2)]);
    let before = cells_of(&heap);
    let mut trail = Vec::new();
    bind(&mut heap, &mut trail, 2, 0);
    let mark = trail.len();
    bind(&mut heap, &mut trail, 0, 1);
    assert_eq!(vec![2, 0], trail);
    assert_eq!(Some(1), resolve_at(&heap, 2));
    unwind_trail(&mut heap, &mut trail, mark);
    assert_eq!(vec![2], trail);
    assert_eq!(HeapEntry::new(HeapTag::Variable, 0), heap.read(0));
    assert_eq!(HeapEntry::new(HeapTag::Unify, 0), heap.read(2));
    unwind_trail(&mut heap, &mut trail, mark);
    assert_eq!(vec![2], trail);
    unwind_trail(&mut heap, &mut trail, 0);
    assert_eq!(before, cells_of(&heap));
    unwind_trail(&mut heap, &mut trail, 0);
    assert_eq!(before, cells_of(&heap));
    unwind_trail(&mut heap, &mut trail, 5);
    assert!(trail.is_empty());
}

#[test]
fn test_unify_reports_a_full_trail_and_deep_nesting() {
    let mut heap = heap_of(&[(HeapTag::Variable, 0), (HeapTag::Constant, 4)]);
    let mut trail = vec![7];
    assert_eq!(Err(EngineError::ResourceExhausted), unify(&mut heap, &mut trail, 0, 1, 1));
    assert_eq!(HeapEntry::new(HeapTag::Variable, 0), heap.read(0));
    assert_eq!(Ok(true), unify(&mut heap, &mut trail, 0, 1, 2));

    let mut heap = twins();
    let mut trail = Vec::new();
    assert_eq!(Ok(true), unify(&mut heap, &mut trail, 0, 7, 100));
    assert!(trail.is_empty());

    // Two terms that each hold themselves as their argument: `f (f (f ...))`.
    let mut heap = heap_of(&[
        (HeapTag::Arity, 1),
        (HeapTag::Constant, 0),
        (HeapTag::Reference, 0),
        (HeapTag::Arity, 1),
        (HeapTag::Constant, 0),
        (HeapTag::Reference, 3),
    ]);
    let before = cells_of(&heap);
    let mut trail = Vec::new();
    assert_eq!(Err(EngineError::ResourceExhausted), unify(&mut heap, &mut trail, 0, 3, 100));
    assert!(trail.is_empty());
    assert_eq!(before, cells_of(&heap));
    assert_eq!(Ok(true), unify(&mut heap, &mut trail, 0, 0, 100));
}

#[test]
fn test_unify_reports_what_is_no_term() {
    let mut heap = heap_of(&[
        (HeapTag::Unify, 9),
        (HeapTag::Constant, 0),
        (HeapTag::Variable, 1),
        (HeapTag::Unify, 4),
        (HeapTag::Unify, 3),
        (HeapTag::Arity, 3),
        (HeapTag::Constant, 0),
        (HeapTag::Arity, 3),
        (HeapTag::Constant, 0),
    ]);
    let mut trail = Vec::new();
    let violation = Err(EngineError::InternalInvariantViolation);
    assert_eq!(violation, unify(&mut heap, &mut trail, 0, 1, 100));
    assert_eq!(violation, unify(&mut heap, &mut trail, 1, 50, 100));
    assert_eq!(violation, unify(&mut heap, &mut trail, 1, 2, 100));
    assert_eq!(violation, unify(&mut heap, &mut trail, 3, 1, 100));
    assert_eq!(violation, unify(&mut heap, &mut trail, 5, 7, 100));
    assert_eq!(None, resolve_at(&heap, 3));
    assert_eq!(None, resolve_at(&heap, 0));
    assert_eq!(Some(1), resolve_at(&heap, 1));
}

#[test]
fn test_unify_blocks_of_different_shape() {
    // `f a` at 0, `f a b` at 3, the bare `f` at 7, `g a` at 9.
    let mut heap = heap_of(&[
        (HeapTag::Arity, 1),
        (HeapTag::Constant, 0),
        (HeapTag::Constant, 1),
        (HeapTag::Arity, 2),
        (HeapTag::Constant, 0),
        (HeapTag::Constant, 1),
        (HeapTag::Constant, 2),
        (HeapTag::Arity, 1),
        (HeapTag::Constant, 0),
        (HeapTag::Arity, 1),
        (HeapTag::Constant, 5),
        (HeapTag::Constant, 1),
    ]);
    let mut trail = Vec::new();
    assert_eq!(Ok(false), unify(&mut heap, &mut trail, 0, 3, 100));
    assert_eq!(Ok(false), unify(&mut heap, &mut trail, 0, 7, 100));
    assert_eq!(Ok(false), unify(&mut heap, &mut trail, 0, 9, 100));
    assert_eq!(Ok(true), unify(&mut heap, &mut trail, 7, 7, 100));
    assert!(trail.is_empty());
}

#[test]
fn test_functors_are_compared_one_step_on() {
    // `F a` at 0 with F bound to the constant at 3, `f a` at 4, and `G a` at
    // 7 with G a later occurrence of F.
    let mut heap = heap_of(&[
        (HeapTag::Arity, 1),
        (HeapTag::Unify, 3),
        (HeapTag::Constant, 1),
        (HeapTag::Constant, 0),
        (HeapTag::Arity, 1),
        (HeapTag::Constant, 0),
        (HeapTag::Constant, 1),
        (HeapTag::Arity, 1),
        (HeapTag::Unify, 1),
        (HeapTag::Constant, 1),
    ]);
    let mut trail = Vec::new();
    // One step from the binding is the constant.
    assert_eq!(Ok(true), unify(&mut heap, &mut trail, 0, 4, 100));
    // One step from the later occurrence is the binding, not the constant.
    assert_eq!(Ok(false), unify(&mut heap, &mut trail, 7, 4, 100));
    assert!(trail.is_empty());
}

#[test]
fn test_a_ground_term_compiled_twice_unifies_with_itself() {
    let term = || CompoundTerm {
        name: SimpleTerm::Atom(String::from("a")),
        parameters: vec![
            Term::Compound(CompoundTerm {
                name: SimpleTerm::Atom(String::from("a")),
                parameters: vec![Term::Compound(CompoundTerm {
                    name: SimpleTerm::Atom(String::from("b")),
                    parameters: vec![
                        Term::Simple(SimpleTerm::Atom(String::from("e"))),
                        Term::Simple(SimpleTerm::Atom(String::from("f"))),
                    ],
                })],
            }),
            Term::Simple(SimpleTerm::Atom(String::from("c"))),
        ],
    };
    let mut compiler = Compiler::new();
    let first = compiler.compile_compound_term(&term());
    compiler.compile_simple_term(&SimpleTerm::Atom(String::from("between")));
    let second = compiler.compile_compound_term(&term());
    assert_eq!((0, 12), (first, second));
    let before = cells_of(&compiler.heap);
    let mut trail = Vec::new();
    assert_eq!(Ok(true), unify(&mut compiler.heap, &mut trail, first, second, 0));
    assert!(trail.is_empty());
    assert_eq!(before, cells_of(&compiler.heap));
}
