use butterfly_pl::block::{block_cells, deref, deref_once, get_subterms, read_subterm};
use butterfly_pl::error::EngineError;
use butterfly_pl::heap::{Heap, HeapEntry, HeapTag};
use butterfly_pl::symbols::SymbolTable;

fn heap_from(cells: &[(HeapTag, usize)]) -> Heap {
    let mut heap = Heap::new();
    heap.allocate(cells.len());
    for (at, (tag, data)) in cells.iter().enumerate() {
        heap.write(at, HeapEntry::new(*tag, *data));
    }
    heap
}

#[test]
fn test_deref_follows_variables_to_the_first_occurrence() {
    let heap = heap_from(&[
        (HeapTag::Variable, 0),
        (HeapTag::Unify, 0),
        (HeapTag::Unify, 1),
        (HeapTag::Constant, 7),
        (HeapTag::Unify, 3),
        (HeapTag::Reference, 0),
    ]);
    let unbound = HeapEntry::new(HeapTag::Variable, 0);
    assert_eq!(Ok(unbound), deref(&heap, heap.read(0)));
    assert_eq!(Ok(unbound), deref(&heap, heap.read(1)));
    assert_eq!(Ok(unbound), deref(&heap, heap.read(2)));
    assert_eq!(Ok(HeapEntry::new(HeapTag::Constant, 7)), deref(&heap, heap.read(3)));
    assert_eq!(Ok(HeapEntry::new(HeapTag::Constant, 7)), deref(&heap, heap.read(4)));
    assert_eq!(Ok(HeapEntry::new(HeapTag::Reference, 0)), deref(&heap, heap.read(5)));
    assert_eq!(
        HeapEntry::new(HeapTag::Unify, 1),
        deref_once(&heap, HeapEntry::new(HeapTag::Reference, 2))
    );
}

#[test]
fn test_deref_reports_a_circle_and_a_pointer_out_of_the_heap() {
    let heap = heap_from(&[
        (HeapTag::Unify, 1),
        (HeapTag::Unify, 0),
        (HeapTag::Unify, 9),
        (HeapTag::Unify, 3),
        (HeapTag::Reference, 9),
    ]);
    let violation = Err(EngineError::InternalInvariantViolation);
    assert_eq!(violation, deref(&heap, heap.read(0)));
    assert_eq!(violation, deref(&heap, heap.read(1)));
    assert_eq!(violation, deref(&heap, heap.read(2)));
    assert_eq!(violation, deref(&heap, HeapEntry::new(HeapTag::Variable, 5)));
    // A cell that holds itself ends the walk, whatever its tag says.
    assert_eq!(Ok(HeapEntry::new(HeapTag::Unify, 3)), deref(&heap, heap.read(3)));
    assert_eq!(Ok(heap.read(4)), deref(&heap, heap.read(4)));
}

#[test]
fn test_read_subterm_follows_variables_and_references() {
    // `f X (g a) X` at 0 with `g a` at 5, and a reference out of the heap.
    let heap = heap_from(&[
        (HeapTag::Arity, 3),
        (HeapTag::Constant, 0),
        (HeapTag::Variable, 2),
        (HeapTag::Reference, 5),
        (HeapTag::Unify, 2),
        (HeapTag::Arity, 1),
        (HeapTag::Constant, 1),
        (HeapTag::Constant, 2),
        (HeapTag::Reference, 11),
        (HeapTag::Unify, 10),
        (HeapTag::Unify, 9),
    ]);
    assert_eq!(Ok(HeapEntry::new(HeapTag::Constant, 0)), read_subterm(&heap, 1));
    assert_eq!(Ok(HeapEntry::new(HeapTag::Variable, 2)), read_subterm(&heap, 2));
    assert_eq!(Ok(HeapEntry::new(HeapTag::Arity, 1)), read_subterm(&heap, 3));
    assert_eq!(Ok(HeapEntry::new(HeapTag::Variable, 2)), read_subterm(&heap, 4));
    let violation = Err(EngineError::InternalInvariantViolation);
    assert_eq!(violation, read_subterm(&heap, 8));
    assert_eq!(violation, read_subterm(&heap, 9));
    assert_eq!(violation, read_subterm(&heap, 11));
}

#[test]
fn test_block_cells_tells_a_wrapped_term_from_a_compound() {
    // The bare `a` at 0, `f a` at 2, `g a b` at 5, the bare `X` at 9.
    let heap = heap_from(&[
        (HeapTag::Arity, 1),
        (HeapTag::Constant, 0),
        (HeapTag::Arity, 1),
        (HeapTag::Constant, 1),
        (HeapTag::Constant, 0),
        (HeapTag::Arity, 2),
        (HeapTag::Constant, 2),
        (HeapTag::Constant, 0),
        (HeapTag::Constant, 3),
        (HeapTag::Arity, 1),
        (HeapTag::Variable, 10),
    ]);
    assert_eq!(Some(1), block_cells(&heap, 0));
    assert_eq!(Some(2), block_cells(&heap, 2));
    assert_eq!(Some(3), block_cells(&heap, 5));
    assert_eq!(Some(1), block_cells(&heap, 9));
    assert_eq!(None, block_cells(&heap, 1));
    assert_eq!(None, block_cells(&heap, 11));
}

#[test]
fn test_block_cells_of_a_block_that_does_not_fit() {
    let heap = heap_from(&[(HeapTag::Arity, 2), (HeapTag::Constant, 0), (HeapTag::Constant, 1)]);
    assert_eq!(None, block_cells(&heap, 0));
    let heap = heap_from(&[(HeapTag::Arity, 1)]);
    assert_eq!(None, block_cells(&heap, 0));
    let heap = heap_from(&[(HeapTag::Arity, 0), (HeapTag::Constant, 0)]);
    assert_eq!(Some(1), block_cells(&heap, 0));
    let heap = heap_from(&[(HeapTag::Arity, usize::MAX), (HeapTag::Constant, 0)]);
    assert_eq!(None, block_cells(&heap, 0));
}

#[test]
fn test_get_subterms_of_a_block() {
    // `f X (g a) X` at 0 with `g a` at 5.
    let heap = heap_from(&[
        (HeapTag::Arity, 3),
        (HeapTag::Constant, 0),
        (HeapTag::Variable, 2),
        (HeapTag::Reference, 5),
        (HeapTag::Unify, 2),
        (HeapTag::Arity, 1),
        (HeapTag::Constant, 1),
        (HeapTag::Constant, 2),
    ]);
    let found = get_subterms(&heap, HeapEntry::new(HeapTag::Reference, 0));
    assert_eq!(
        Ok(vec![
            HeapEntry::new(HeapTag::Variable, 2),
            HeapEntry::new(HeapTag::Arity, 1),
            HeapEntry::new(HeapTag::Variable, 2),
        ]),
        found
    );
    assert_eq!(
        Ok(vec![HeapEntry::new(HeapTag::Constant, 2)]),
        get_subterms(&heap, HeapEntry::new(HeapTag::Reference, 5))
    );
    let violation = Err(EngineError::InternalInvariantViolation);
    assert_eq!(violation, get_subterms(&heap, HeapEntry::new(HeapTag::Reference, 1)));
    assert_eq!(violation, get_subterms(&heap, HeapEntry::new(HeapTag::Reference, 40)));
}

#[test]
fn test_get_subterms_of_a_bare_atom_and_of_what_cannot_be_read() {
    // The bare `a` at 0, then `f X` at 2 whose argument runs in a circle.
    let heap = heap_from(&[
        (HeapTag::Arity, 1),
        (HeapTag::Constant, 0),
        (HeapTag::Arity, 1),
        (HeapTag::Constant, 1),
        (HeapTag::Unify, 5),
        (HeapTag::Unify, 4),
    ]);
    assert_eq!(
        Ok(vec![HeapEntry::new(HeapTag::Constant, 0)]),
        get_subterms(&heap, HeapEntry::new(HeapTag::Reference, 0))
    );
    assert_eq!(
        Err(EngineError::InternalInvariantViolation),
        get_subterms(&heap, HeapEntry::new(HeapTag::Reference, 2))
    );
}

#[test]
fn test_intern_gives_each_name_one_id() {
    let mut table = SymbolTable::new();
    assert_eq!(None, table.get_index("a"));
    assert_eq!(0, table.intern("a"));
    assert_eq!(1, table.intern("b"));
    assert_eq!(0, table.intern("a"));
    assert_eq!(2, table.intern(""));
    assert_eq!(1, table.intern("b"));
    assert_eq!(3, table.len());
    assert_eq!("a", table.get(0));
    assert_eq!("b", table.get(1));
    assert_eq!("", table.get(2));
    assert_eq!(Some(1), table.get_index("b"));
    assert_eq!(None, table.get_index("c"));
    assert_eq!(&vec![String::from("a"), String::from("b"), String::new()], table.names());
}
