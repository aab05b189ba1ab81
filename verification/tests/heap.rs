use butterfly_pl::heap::{Heap, HeapEntry, HeapTag};

#[test]
fn test_alloc() {
    let mut heap = Heap::new();
    let index = heap.allocate(32);

    assert_eq!(0, index);

    let mut expected_buffer = Vec::new();
    expected_buffer.resize(32, HeapEntry::empty());

    assert_eq!(&expected_buffer, heap.entries());

    let index = heap.allocate(1);
    assert_eq!(32, index);
}

#[test]
fn test_write() {
    let mut heap = Heap::new();
    let index = heap.allocate(32);
    let entry = HeapEntry::new(HeapTag::Variable, 5);
    heap.write(index, entry);

    let mut expected_buffer = Vec::new();
    expected_buffer.resize(32, HeapEntry::empty());
    expected_buffer[0] = entry;

    assert_eq!(&expected_buffer, heap.entries());

    assert_eq!(entry, heap.read(index));
}

#[test]
fn test_empty_entry_is_uninitialized() {
    assert_eq!(HeapEntry::empty(), HeapEntry { tag: HeapTag::Uninitialized, data: 0 });
}

#[test]
fn test_alloc_keeps_earlier_cells() {
    let mut heap = Heap::new();
    let first = heap.allocate(2);
    heap.write(first, HeapEntry::new(HeapTag::Arity, 1));
    heap.write(first + 1, HeapEntry::new(HeapTag::Constant, 7));
    let second = heap.allocate(3);
    assert_eq!(2, second);
    assert_eq!(5, heap.len());
    assert_eq!(HeapEntry::new(HeapTag::Arity, 1), heap.read(0));
    assert_eq!(HeapEntry::new(HeapTag::Constant, 7), heap.read(1));
    assert_eq!(HeapEntry::empty(), heap.read(2));
    assert_eq!(HeapEntry::empty(), heap.read(4));
}

#[test]
fn test_alloc_nothing() {
    let mut heap = Heap::new();
    assert_eq!(0, heap.allocate(0));
    assert_eq!(0, heap.len());
}

#[test]
fn test_truncate_drops_cells_from_mark() {
    let mut heap = Heap::new();
    heap.allocate(4);
    heap.write(1, HeapEntry::new(HeapTag::Constant, 3));
    heap.truncate(2);
    assert_eq!(2, heap.len());
    assert_eq!(HeapEntry::new(HeapTag::Constant, 3), heap.read(1));
    heap.truncate(9);
    assert_eq!(2, heap.len());
    heap.truncate(0);
    assert_eq!(0, heap.len());
}

#[test]
fn test_is_var_or_unify() {
    assert!(HeapEntry::new(HeapTag::Variable, 0).is_var_or_unify());
    assert!(HeapEntry::new(HeapTag::Unify, 0).is_var_or_unify());
    assert!(!HeapEntry::new(HeapTag::Reference, 0).is_var_or_unify());
    assert!(!HeapEntry::new(HeapTag::Constant, 0).is_var_or_unify());
    assert!(!HeapEntry::new(HeapTag::Number, 0).is_var_or_unify());
    assert!(!HeapEntry::new(HeapTag::Arity, 0).is_var_or_unify());
    assert!(!HeapEntry::new(HeapTag::Uninitialized, 0).is_var_or_unify());
}
