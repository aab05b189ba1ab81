//! The shape that every heap of terms has: blocks that lie within the heap,
//! and pointers that lead to where they may.

use vstd::prelude::*;
use crate::block::{block_fits, block_width, is_wrapped};
use crate::heap::{HeapEntry, HeapTag};
use crate::layout::cell;

verus! {

/// Whether an entry points to a cell: a variable, a binding or a reference.
pub open spec fn is_pointer(entry: HeapEntry) -> bool {
    entry.tag == HeapTag::Variable || entry.tag == HeapTag::Unify || entry.tag
        == HeapTag::Reference
}

/// Whether no cell of the block at `start` but the first is an `Arity`
/// cell.
pub open spec fn slots_follow(cells: Seq<HeapEntry>, start: int) -> bool {
    forall|j: int|
        start < j <= start + block_width(cells, start) ==> (#[trigger] cells[j]).tag
            != HeapTag::Arity
}

/// Whether the cell at `at` is what its tag says. A `Variable` names its
/// own cell. A `Unify` names a cell of the heap that starts no block. A
/// `Reference` names the first cell of a block that lies within the heap.
/// An `Arity` cell starts a block that lies within the heap and holds no
/// other `Arity` cell.
pub open spec fn cell_formed(cells: Seq<HeapEntry>, at: int) -> bool {
    match cells[at].tag {
        HeapTag::Variable => cells[at].data == at,
        HeapTag::Unify => cells[at].data < cells.len() && cells[cells[at].data as int].tag
            != HeapTag::Arity,
        HeapTag::Reference => block_fits(cells, cells[at].data as int),
        HeapTag::Arity => block_fits(cells, at) && slots_follow(cells, at),
        _ => true,
    }
}

/// Whether every cell of the heap is what its tag says.
pub open spec fn formed(cells: Seq<HeapEntry>) -> bool {
    forall|at: int| 0 <= at < cells.len() ==> #[trigger] cell_formed(cells, at)
}

/// Whether every pointer in the cells from `base` to `end` leads to a cell
/// in that range.
pub open spec fn enclosed(cells: Seq<HeapEntry>, base: int, end: int) -> bool {
    forall|at: int|
        base <= at < end && is_pointer(#[trigger] cells[at]) ==> base <= cells[at].data < end
}

/// Whether no cell from `base` to `end` is still to be written.
pub open spec fn filled(cells: Seq<HeapEntry>, base: int, end: int) -> bool {
    forall|at: int| base <= at < end ==> (#[trigger] cells[at]).tag != HeapTag::Uninitialized
}

/// Whether two heaps have their blocks in the same places: they are of one
/// length, and each has an `Arity` cell where the other has the same.
pub open spec fn same_blocks(cells: Seq<HeapEntry>, other: Seq<HeapEntry>) -> bool {
    &&& cells.len() == other.len()
    &&& forall|at: int|
        0 <= at < cells.len() ==> ((#[trigger] cells[at]).tag == HeapTag::Arity <==> other[at].tag
            == HeapTag::Arity)
    &&& forall|at: int|
        0 <= at < cells.len() && (#[trigger] cells[at]).tag == HeapTag::Arity ==> other[at]
            == cells[at]
}

/// Heaps with their blocks in the same places have blocks of the same
/// width, lying within the heap alike.
pub proof fn lemma_same_blocks_at(cells: Seq<HeapEntry>, other: Seq<HeapEntry>, start: int)
    requires
        same_blocks(cells, other),
        0 <= start < cells.len(),
        cells[start].tag == HeapTag::Arity,
    ensures
        block_width(other, start) == block_width(cells, start),
        block_fits(other, start) == block_fits(cells, start),
        block_fits(cells, start) ==> (slots_follow(other, start) == slots_follow(cells, start)),
{
    assert(other[start] == cells[start]);
    if start + 2 < cells.len() {
        assert((cells[start + 2].tag == HeapTag::Arity) == (other[start + 2].tag
            == HeapTag::Arity));
    }
    if block_fits(cells, start) {
        if slots_follow(cells, start) {
            assert forall|j: int| start < j <= start + block_width(other, start) implies (
            #[trigger] other[j]).tag != HeapTag::Arity by {
                assert(cells[j].tag != HeapTag::Arity);
            }
        }
        if slots_follow(other, start) {
            assert forall|j: int| start < j <= start + block_width(cells, start) implies (
            #[trigger] cells[j]).tag != HeapTag::Arity by {
                assert(other[j].tag != HeapTag::Arity);
            }
        }
    }
}

/// Writing an entry that starts no block into a cell that starts none
/// leaves a heap formed, if the entry is what its tag says.
pub proof fn lemma_write_keeps_formed(cells: Seq<HeapEntry>, at: int, entry: HeapEntry)
    requires
        formed(cells),
        0 <= at < cells.len(),
        cells[at].tag != HeapTag::Arity,
        entry.tag != HeapTag::Arity,
        entry.tag == HeapTag::Variable ==> entry.data == at,
        entry.tag == HeapTag::Unify ==> entry.data < cells.len() && cells[entry.data as int].tag
            != HeapTag::Arity,
        entry.tag == HeapTag::Reference ==> block_fits(cells, entry.data as int),
    ensures
        formed(cells.update(at, entry)),
        same_blocks(cells, cells.update(at, entry)),
{
    let after = cells.update(at, entry);
    assert(same_blocks(cells, after));
    assert forall|i: int| 0 <= i < after.len() implies #[trigger] cell_formed(after, i) by {
        assert(cell_formed(cells, i));
        let subject = after[i];
        if subject.tag == HeapTag::Reference {
            let target = subject.data as int;
            lemma_same_blocks_at(cells, after, target);
        } else if subject.tag == HeapTag::Arity {
            lemma_same_blocks_at(cells, after, i);
        } else if subject.tag == HeapTag::Unify {
            let target = subject.data as int;
            assert(cells[target].tag != HeapTag::Arity);
        }
    }
}

/// Whether `longer` is `cells` with blocks added on top: the cells that
/// were there are as they were, and what follows them starts with an
/// `Arity` cell.
pub open spec fn grown(cells: Seq<HeapEntry>, longer: Seq<HeapEntry>) -> bool {
    &&& cells.len() <= longer.len()
    &&& forall|at: int| 0 <= at < cells.len() ==> #[trigger] longer[at] == cells[at]
    &&& cells.len() < longer.len() ==> longer[cells.len() as int].tag == HeapTag::Arity
}

/// A heap grown twice is a heap grown.
pub proof fn lemma_grown_chains(cells: Seq<HeapEntry>, middle: Seq<HeapEntry>, longer: Seq<HeapEntry>)
    requires
        grown(cells, middle),
        grown(middle, longer),
    ensures
        grown(cells, longer),
{
    assert forall|at: int| 0 <= at < cells.len() implies #[trigger] longer[at] == cells[at] by {
        assert(middle[at] == cells[at]);
    }
    if cells.len() < middle.len() {
        assert(longer[cells.len() as int] == middle[cells.len() as int]);
    }
}

/// A range that is closed and written stays so in the grown heap.
pub proof fn lemma_grown_keeps_enclosed(
    cells: Seq<HeapEntry>,
    longer: Seq<HeapEntry>,
    base: int,
    end: int,
)
    requires
        grown(cells, longer),
        0 <= base <= end <= cells.len(),
        enclosed(cells, base, end),
        filled(cells, base, end),
    ensures
        enclosed(longer, base, end),
        filled(longer, base, end),
{
    assert forall|at: int| base <= at < end && is_pointer(#[trigger] longer[at]) implies base
        <= longer[at].data < end by {
        assert(longer[at] == cells[at]);
        assert(is_pointer(cells[at]));
    }
    assert forall|at: int| base <= at < end implies (#[trigger] longer[at]).tag
        != HeapTag::Uninitialized by {
        assert(longer[at] == cells[at]);
        assert(cells[at].tag != HeapTag::Uninitialized);
    }
}

/// A block that lies within a heap lies within the grown heap, and is as
/// wide there.
pub proof fn lemma_grown_keeps_block(cells: Seq<HeapEntry>, longer: Seq<HeapEntry>, start: int)
    requires
        grown(cells, longer),
        block_fits(cells, start),
    ensures
        block_fits(longer, start),
        block_width(longer, start) == block_width(cells, start),
        slots_follow(cells, start) ==> slots_follow(longer, start),
{
    assert(longer[start] == cells[start]);
    if start + 2 < cells.len() {
        assert(longer[start + 2] == cells[start + 2]);
    }
    if slots_follow(cells, start) {
        assert forall|j: int| start < j <= start + block_width(longer, start) implies (
        #[trigger] longer[j]).tag != HeapTag::Arity by {
            assert(longer[j] == cells[j]);
            assert(cells[j].tag != HeapTag::Arity);
        }
    }
}

/// The cells that were formed are formed in the grown heap.
pub proof fn lemma_grown_keeps_formed(cells: Seq<HeapEntry>, longer: Seq<HeapEntry>)
    requires
        grown(cells, longer),
        formed(cells),
    ensures
        forall|at: int| 0 <= at < cells.len() ==> #[trigger] cell_formed(longer, at),
{
    assert forall|at: int| 0 <= at < cells.len() implies #[trigger] cell_formed(longer, at) by {
        assert(cell_formed(cells, at));
        assert(longer[at] == cells[at]);
        let subject = cells[at];
        if subject.tag == HeapTag::Reference {
            lemma_grown_keeps_block(cells, longer, subject.data as int);
        } else if subject.tag == HeapTag::Arity {
            lemma_grown_keeps_block(cells, longer, at);
        } else if subject.tag == HeapTag::Unify {
            assert(longer[subject.data as int] == cells[subject.data as int]);
        }
    }
}

/// A new block on top of a formed heap, its `Arity` cell written and its
/// other cells not yet, leaves the heap formed.
pub proof fn lemma_new_block_keeps_formed(cells: Seq<HeapEntry>, count: nat)
    requires
        formed(cells),
        cells.len() + 2 + count <= usize::MAX,
    ensures
        ({
            let start = cells.len() as int;
            let longer = (cells + Seq::new(2 + count, |i: int| HeapEntry::empty())).update(
                start,
                cell(HeapTag::Arity, count as int),
            );
            &&& formed(longer)
            &&& grown(cells, longer)
            &&& block_fits(longer, start)
            &&& block_width(longer, start) == count + 1
        }),
{
    let start = cells.len() as int;
    let longer = (cells + Seq::new(2 + count, |i: int| HeapEntry::empty())).update(
        start,
        cell(HeapTag::Arity, count as int),
    );
    assert(grown(cells, longer));
    lemma_grown_keeps_formed(cells, longer);
    if count == 1 {
        assert(longer[start + 2].tag == HeapTag::Uninitialized);
    }
    assert(!is_wrapped(longer, start));
    assert(block_fits(longer, start));
    assert forall|at: int| 0 <= at < longer.len() implies #[trigger] cell_formed(longer, at) by {
        if at > start {
            assert(longer[at].tag == HeapTag::Uninitialized);
        } else if at == start {
            assert forall|j: int| start < j <= start + block_width(longer, start) implies (
            #[trigger] longer[j]).tag != HeapTag::Arity by {
                assert(longer[j].tag == HeapTag::Uninitialized);
            }
        }
    }
}

/// A new `Arity` cell with count one and one more cell on top of a formed
/// heap, the second not yet written, leaves the heap formed.
pub proof fn lemma_new_wrapper_keeps_formed(cells: Seq<HeapEntry>)
    requires
        formed(cells),
        cells.len() + 2 <= usize::MAX,
    ensures
        ({
            let start = cells.len() as int;
            let longer = (cells + Seq::new(1, |i: int| HeapEntry::empty())).update(
                start,
                cell(HeapTag::Arity, 1),
            ) + Seq::new(1, |i: int| HeapEntry::empty());
            &&& formed(longer)
            &&& grown(cells, longer)
            &&& block_fits(longer, start)
            &&& block_width(longer, start) == 1
        }),
{
    let start = cells.len() as int;
    let longer = (cells + Seq::new(1, |i: int| HeapEntry::empty())).update(
        start,
        cell(HeapTag::Arity, 1),
    ) + Seq::new(1, |i: int| HeapEntry::empty());
    assert(grown(cells, longer));
    lemma_grown_keeps_formed(cells, longer);
    assert(is_wrapped(longer, start));
    assert forall|at: int| 0 <= at < longer.len() implies #[trigger] cell_formed(longer, at) by {
        if at > start {
            assert(longer[at].tag == HeapTag::Uninitialized);
        } else if at == start {
            assert forall|j: int| start < j <= start + block_width(longer, start) implies (
            #[trigger] longer[j]).tag != HeapTag::Arity by {
                assert(longer[j].tag == HeapTag::Uninitialized);
            }
        }
    }
}

} // verus!
