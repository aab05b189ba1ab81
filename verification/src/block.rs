//! Reading terms back from the heap: following variable chains and finding
//! the cells of a block.

use vstd::prelude::*;
use crate::error::EngineError;
use crate::heap::{Heap, HeapEntry, HeapIndex, HeapTag};

verus! {

/// Whether following `pointer` leads no further: it is no variable
/// occurrence, it names no cell of the heap, or the cell it names holds
/// `pointer` itself, which marks an unbound variable.
pub open spec fn settled(cells: Seq<HeapEntry>, pointer: HeapEntry) -> bool {
    ||| !pointer.is_var_or_unify()
    ||| pointer.data >= cells.len()
    ||| cells[pointer.data as int] == pointer
}

/// The entry reached from `pointer` by following variable occurrences, at
/// most `hops` of them, until the walk is settled.
pub open spec fn follow(cells: Seq<HeapEntry>, pointer: HeapEntry, hops: nat) -> HeapEntry
    decreases hops,
{
    if hops == 0 || settled(cells, pointer) {
        pointer
    } else {
        follow(cells, cells[pointer.data as int], (hops - 1) as nat)
    }
}

/// Whether the block at `start` is an atom or variable behind an `Arity`
/// cell of its own. Such a block and a compound term of one argument both
/// carry the count one; the compound term has an argument cell two places
/// on, where the wrapped term is followed by the next block or by nothing.
pub open spec fn is_wrapped(cells: Seq<HeapEntry>, start: int) -> bool {
    &&& cells[start].data == 1
    &&& (start + 2 >= cells.len() || cells[start + 2].tag == HeapTag::Arity)
}

/// The number of cells that follow the `Arity` cell at `start` in its block:
/// the term itself if it is wrapped, else the functor and the arguments.
pub open spec fn block_width(cells: Seq<HeapEntry>, start: int) -> int {
    if is_wrapped(cells, start) {
        1
    } else {
        cells[start].data + 1
    }
}

/// Whether a block starts at `start` and lies within the heap.
pub open spec fn block_fits(cells: Seq<HeapEntry>, start: int) -> bool {
    &&& 0 <= start < cells.len()
    &&& cells[start].tag == HeapTag::Arity
    &&& start + 1 + block_width(cells, start) <= cells.len()
}

/// Whether following `pointer` comes to an end as it should, within `hops`
/// hops: at an entry that is no variable occurrence, or at the first
/// occurrence of an unbound variable. It does not if the chain leaves the
/// heap or goes on for more hops than allowed, as a chain that runs in a
/// circle does.
pub open spec fn follows(cells: Seq<HeapEntry>, pointer: HeapEntry, hops: nat) -> bool
    decreases hops,
{
    if !pointer.is_var_or_unify() {
        true
    } else if pointer.data >= cells.len() {
        false
    } else if cells[pointer.data as int] == pointer {
        true
    } else if hops == 0 {
        false
    } else {
        follows(cells, cells[pointer.data as int], (hops - 1) as nat)
    }
}

/// What the cell at `slot` stands for: its variable chain is followed to
/// the end, and a reference to another block is replaced by that block's
/// first cell.
pub open spec fn subterm(cells: Seq<HeapEntry>, slot: int) -> HeapEntry {
    let entry = follow(cells, cells[slot], cells.len());
    if entry.tag == HeapTag::Reference && entry.data < cells.len() {
        cells[entry.data as int]
    } else {
        entry
    }
}

/// Whether the cell at `slot` can be read as a subterm: it is a cell of
/// the heap, its variable chain comes to an end as it should, and a
/// reference at its end names a cell of the heap.
pub open spec fn slot_readable(cells: Seq<HeapEntry>, slot: int) -> bool {
    &&& 0 <= slot < cells.len()
    &&& follows(cells, cells[slot], cells.len())
    &&& follow(cells, cells[slot], cells.len()).tag == HeapTag::Reference ==> follow(
        cells,
        cells[slot],
        cells.len(),
    ).data < cells.len()
}

/// The first argument cell of the block at `start`: the cell after the
/// functor, or, for an atom or variable behind an `Arity` cell of its own,
/// the cell of the term itself, which is its own one argument.
pub open spec fn first_argument(cells: Seq<HeapEntry>, start: int) -> int {
    if is_wrapped(cells, start) {
        start + 1
    } else {
        start + 2
    }
}

/// The arguments of the block that `reference` points to, as subterms: one
/// for each argument that its `Arity` cell counts; none if no block lies
/// there.
pub open spec fn subterms(cells: Seq<HeapEntry>, reference: HeapEntry) -> Seq<HeapEntry> {
    let start = reference.data as int;
    if block_fits(cells, start) {
        Seq::new(
            cells[start].data as nat,
            |i: int| subterm(cells, first_argument(cells, start) + i),
        )
    } else {
        Seq::empty()
    }
}

/// Whether the arguments of the block that `reference` points to can be
/// read: a block lies there, within the heap, and each of its argument
/// cells can be read as a subterm.
pub open spec fn subterms_readable(cells: Seq<HeapEntry>, reference: HeapEntry) -> bool {
    let start = reference.data as int;
    &&& block_fits(cells, start)
    &&& forall|slot: int|
        first_argument(cells, start) <= slot < first_argument(cells, start) + cells[start].data
            ==> #[trigger] slot_readable(cells, slot)
}

/// The entry in the cell that `pointer` names.
pub fn deref_once(heap: &Heap, pointer: HeapEntry) -> (entry: HeapEntry)
    requires
        pointer.data < heap@.len(),
    ensures
        entry == heap@[pointer.data as int],
{
    heap.read(pointer.data)
}

/// Follows a chain of variable occurrences to the first occurrence of an
/// unbound variable or to an entry that is no variable. A chain that leaves
/// the heap or runs in a circle is a violation.
pub fn deref(heap: &Heap, pointer: HeapEntry) -> (reached: Result<HeapEntry, EngineError>)
    ensures
        match reached {
            Ok(entry) => follows(heap@, pointer, heap@.len()) && entry == follow(
                heap@,
                pointer,
                heap@.len(),
            ),
            Err(error) => !follows(heap@, pointer, heap@.len()) && error
                == EngineError::InternalInvariantViolation,
        },
{
    let mut result = pointer;
    let mut hops: usize = 0;
    let limit = heap.len();
    loop
        invariant
            limit == heap@.len(),
            hops <= limit,
            follow(heap@, pointer, limit as nat) == follow(heap@, result, (limit - hops) as nat),
            follows(heap@, pointer, limit as nat) == follows(heap@, result, (limit - hops) as nat),
        decreases limit - hops,
    {
        if !result.is_var_or_unify() {
            return Ok(result);
        }
        if result.data >= limit {
            return Err(EngineError::InternalInvariantViolation);
        }
        let dereferenced = deref_once(heap, result);
        if dereferenced == result {
            return Ok(result);
        }
        if hops == limit {
            return Err(EngineError::InternalInvariantViolation);
        }
        result = dereferenced;
        hops += 1;
    }
}

/// Reads the cell at `slot` as a subterm.
pub fn read_subterm(heap: &Heap, slot: HeapIndex) -> (read: Result<HeapEntry, EngineError>)
    ensures
        match read {
            Ok(entry) => slot_readable(heap@, slot as int) && entry == subterm(heap@, slot as int),
            Err(error) => !slot_readable(heap@, slot as int) && error
                == EngineError::InternalInvariantViolation,
        },
{
    if slot >= heap.len() {
        return Err(EngineError::InternalInvariantViolation);
    }
    match deref(heap, heap.read(slot)) {
        Ok(entry) => {
            if entry.tag == HeapTag::Reference {
                if entry.data < heap.len() {
                    Ok(deref_once(heap, entry))
                } else {
                    Err(EngineError::InternalInvariantViolation)
                }
            } else {
                Ok(entry)
            }
        },
        Err(error) => Err(error),
    }
}

/// The number of cells after the `Arity` cell at `start`, if a block starts
/// there and lies within the heap.
pub fn block_cells(heap: &Heap, start: HeapIndex) -> (width: Option<usize>)
    ensures
        width is Some <==> block_fits(heap@, start as int),
        width is Some ==> width->0 == block_width(heap@, start as int),
{
    let top = heap.len();
    if start >= top {
        return None;
    }
    let first = heap.read(start);
    if first.tag != HeapTag::Arity {
        return None;
    }
    let room = top - start - 1;
    if first.data == 1 {
        if room < 1 {
            return None;
        }
        if room == 1 || heap.read(start + 2).tag == HeapTag::Arity {
            return Some(1);
        }
    }
    if first.data < room {
        Some(first.data + 1)
    } else {
        None
    }
}

/// The arguments of the block that `reference` points to, as subterms. It
/// is a violation if no block lies there or an argument cannot be read.
pub fn get_subterms(heap: &Heap, reference: HeapEntry) -> (found: Result<
    Vec<HeapEntry>,
    EngineError,
>)
    ensures
        match found {
            Ok(arguments) => subterms_readable(heap@, reference) && arguments@ == subterms(
                heap@,
                reference,
            ),
            Err(error) => !subterms_readable(heap@, reference) && error
                == EngineError::InternalInvariantViolation,
        },
{
    let mut arguments = Vec::new();
    let width = match block_cells(heap, reference.data) {
        Some(width) => width,
        None => {
            return Err(EngineError::InternalInvariantViolation);
        },
    };
    proof {
        heap.lemma_len_fits();
    }
    let count = heap.read(reference.data).data;
    let first = if width == 1 && count == 1 {
        reference.data + 1
    } else {
        reference.data + 2
    };
    let mut i: usize = 0;
    while i < count
        invariant
            block_fits(heap@, reference.data as int),
            heap@.len() <= usize::MAX,
            count == heap@[reference.data as int].data,
            first == first_argument(heap@, reference.data as int),
            first + count <= heap@.len(),
            i <= count,
            arguments@.len() == i,
            forall|j: int| 0 <= j < i ==> arguments@[j] == subterm(heap@, first + j),
            forall|slot: int| first <= slot < first + i ==> #[trigger] slot_readable(heap@, slot),
        decreases count - i,
    {
        match read_subterm(heap, first + i) {
            Ok(entry) => arguments.push(entry),
            Err(error) => {
                return Err(error);
            },
        }
        i += 1;
    }
    assert(arguments@ =~= subterms(heap@, reference));
    Ok(arguments)
}

} // verus!
