//! A search that starts from what the compiler leaves never meets a heap or
//! a descriptor that is not what it should be: every state it comes to is
//! sound, and no step reports a violation.

use vstd::prelude::*;
use crate::block::{block_fits, block_width, is_wrapped};
use crate::compiler::SpineRecord;
use crate::error::EngineError;
use crate::heap::{HeapEntry, HeapTag};
use crate::laws::layout_shape::alias_leads_to_variable;
use crate::laws::search_laws::{
    lemma_candidates_are_the_matches, lemma_step_makes_progress, spines_wf,
};
use crate::laws::shape::{
    cell_formed, enclosed, formed, grown, is_pointer, lemma_grown_keeps_block,
    lemma_grown_keeps_formed, lemma_same_blocks_at, same_blocks, slots_follow,
};
use crate::laws::soundness::{
    lemma_sound_block_is_readable,
    block_kept, blocks_kept, chain_ends, ends_below, lemma_restore_keeps_marked,
    lemma_restore_keeps_sound, lemma_unify_keeps_marked, lemma_unify_keeps_sound,
    lemma_unwind_keeps_sound, points_below_or_trailed, same_below,
};
use crate::layout::{cell, ClauseRecord};
use crate::search::{candidates, Limits, Progress, relocate, relocate_all, renamed, Search};
use crate::store::Store;
use crate::unify::unify_terms;

verus! {

/// Whether the term with number `j` of the clause is a reference to a block
/// of the clause that lies within the heap.
pub open spec fn term_ready(cells: Seq<HeapEntry>, record: ClauseRecord, j: int) -> bool {
    &&& record.terms[j].tag == HeapTag::Reference
    &&& record.base <= record.terms[j].data < record.base + record.length
    &&& block_fits(cells, record.terms[j].data as int)
}

/// Whether the clause lies on the heap as the compiler left it, so that it
/// can be copied: it starts with a block and ends where a block ends, none
/// of its cells points out of it, its later occurrences of variables lead
/// to unbound variables, and its terms are blocks of the clause.
pub open spec fn clause_ready(cells: Seq<HeapEntry>, record: ClauseRecord) -> bool {
    let base = record.base as int;
    let end = record.base + record.length;
    &&& base < end <= cells.len()
    &&& cells[base].tag == HeapTag::Arity
    &&& end < cells.len() ==> cells[end].tag == HeapTag::Arity
    &&& enclosed(cells, base, end)
    &&& forall|at: int| base <= at < end ==> #[trigger] alias_leads_to_variable(cells, at)
    &&& record.terms.len() >= 1
    &&& forall|j: int| 0 <= j < record.terms.len() ==> #[trigger] term_ready(cells, record, j)
}

/// Whether every clause lies below `floor` as the compiler left it, and a
/// block ends at `floor`.
pub open spec fn database_ready(
    cells: Seq<HeapEntry>,
    clauses: Seq<ClauseRecord>,
    floor: int,
) -> bool {
    &&& 0 <= floor <= cells.len()
    &&& floor < cells.len() ==> cells[floor].tag == HeapTag::Arity
    &&& forall|k: int| 0 <= k < clauses.len() ==> #[trigger] clause_stored(cells, clauses[k], floor)
}

/// Whether the clause lies below `floor` as the compiler left it.
pub open spec fn clause_stored(cells: Seq<HeapEntry>, record: ClauseRecord, floor: int) -> bool {
    clause_ready(cells, record) && record.base + record.length <= floor
}

/// A block of a formed heap ends before the next `Arity` cell.
pub proof fn lemma_block_ends_before(cells: Seq<HeapEntry>, start: int, end: int)
    requires
        formed(cells),
        0 <= start < end <= cells.len(),
        cells[start].tag == HeapTag::Arity,
        end < cells.len() ==> cells[end].tag == HeapTag::Arity,
    ensures
        block_fits(cells, start),
        start + 1 + block_width(cells, start) <= end,
{
    assert(cell_formed(cells, start));
    if end < cells.len() && start + block_width(cells, start) >= end {
        assert(cells[end].tag != HeapTag::Arity);
    }
}

/// The clauses stay ready when the heap changes at and above the floor
/// only, and a block still ends at the floor.
pub proof fn lemma_database_kept(
    cells: Seq<HeapEntry>,
    other: Seq<HeapEntry>,
    clauses: Seq<ClauseRecord>,
    floor: int,
)
    requires
        formed(cells),
        database_ready(cells, clauses, floor),
        floor <= other.len(),
        same_below(cells, other, floor),
        floor < other.len() ==> other[floor].tag == HeapTag::Arity,
    ensures
        database_ready(other, clauses, floor),
{
    assert forall|k: int| 0 <= k < clauses.len() implies #[trigger] clause_stored(
        other,
        clauses[k],
        floor,
    ) by {
        let record = clauses[k];
        assert(clause_stored(cells, record, floor));
        let base = record.base as int;
        let end = record.base + record.length;
        assert(other[base] == cells[base]);
        if end < floor {
            assert(other[end] == cells[end]);
        }
        assert forall|at: int| base <= at < end && is_pointer(#[trigger] other[at]) implies base
            <= other[at].data < end by {
            assert(other[at] == cells[at]);
            assert(is_pointer(cells[at]));
        }
        assert forall|at: int| base <= at < end implies #[trigger] alias_leads_to_variable(
            other,
            at,
        ) by {
            assert(alias_leads_to_variable(cells, at));
            assert(other[at] == cells[at]);
            if cells[at].tag == HeapTag::Unify {
                assert(is_pointer(cells[at]));
                assert(other[cells[at].data as int] == cells[cells[at].data as int]);
            }
        }
        assert forall|j: int| 0 <= j < record.terms.len() implies #[trigger] term_ready(
            other,
            record,
            j,
        ) by {
            assert(term_ready(cells, record, j));
            let start = record.terms[j].data as int;
            lemma_block_ends_before(cells, start, end);
            assert(other[start] == cells[start]);
            if start + 2 < floor {
                assert(other[start + 2] == cells[start + 2]);
            }
        }
    }
}

/// Cells that all stay within the clause can all be moved.
pub proof fn lemma_relocate_all_of_closed(
    entries: Seq<HeapEntry>,
    count: nat,
    base: int,
    length: int,
    to: int,
)
    requires
        count <= entries.len(),
        forall|k: int|
            0 <= k < count && is_pointer(#[trigger] entries[k]) ==> base <= entries[k].data < base
                + length,
    ensures
        relocate_all(entries, count, base, length, to) is Some,
        relocate_all(entries, count, base, length, to)->0.len() == count,
        forall|k: int|
            0 <= k < count ==> Some(#[trigger] relocate_all(entries, count, base, length, to)->0[k])
                == relocate(entries[k], base, length, to),
    decreases count,
{
    if count > 0 {
        lemma_relocate_all_of_closed(entries, (count - 1) as nat, base, length, to);
        assert(is_pointer(entries[count - 1]) ==> base <= entries[count - 1].data < base + length);
    }
}

/// Whether the cell with number `k` of the copy is the cell with that
/// number of the clause, moved.
pub open spec fn copy_of(
    lower: Seq<HeapEntry>,
    cells: Seq<HeapEntry>,
    base: int,
    length: int,
    k: int,
) -> bool {
    Some(cells[lower.len() + k]) == relocate(lower[base + k], base, length, lower.len() as int)
}

/// Whether `cells` is `lower` with a copy of the clause from `base` on top,
/// every cell of the clause moved.
pub open spec fn copied(lower: Seq<HeapEntry>, cells: Seq<HeapEntry>, base: int, length: int) -> bool {
    &&& 0 <= base < base + length <= lower.len()
    &&& cells.len() == lower.len() + length <= usize::MAX
    &&& forall|at: int| 0 <= at < lower.len() ==> #[trigger] cells[at] == lower[at]
    &&& forall|k: int| 0 <= k < length ==> #[trigger] copy_of(lower, cells, base, length, k)
}

/// The heap that renaming gives is the lower heap with a copy of the clause
/// on top; only for want of room is there none.
pub proof fn lemma_renamed_is_copied(cells: Seq<HeapEntry>, record: ClauseRecord, heap_limit: int)
    requires
        clause_ready(cells, record),
        heap_limit <= usize::MAX,
    ensures
        match renamed(cells, record, heap_limit) {
            Err(error) => error == EngineError::ResourceExhausted,
            Ok(longer) => copied(cells, longer, record.base as int, record.length as int),
        },
{
    let base = record.base as int;
    let length = record.length as int;
    let to = cells.len() as int;
    if cells.len() + length <= heap_limit {
        let source = cells.subrange(base, base + length);
        assert forall|k: int| 0 <= k < length && is_pointer(#[trigger] source[k]) implies base
            <= source[k].data < base + length by {
            assert(source[k] == cells[base + k]);
            assert(is_pointer(cells[base + k]));
        }
        lemma_relocate_all_of_closed(source, length as nat, base, length, to);
        let copy = relocate_all(source, length as nat, base, length, to)->0;
        let longer = cells + copy;
        assert(renamed(cells, record, heap_limit) == Ok::<Seq<HeapEntry>, EngineError>(longer));
        assert forall|k: int| 0 <= k < length implies #[trigger] copy_of(
            cells,
            longer,
            base,
            length,
            k,
        ) by {
            assert(longer[to + k] == copy[k]);
            assert(source[k] == cells[base + k]);
        }
    }
}

/// A block of the clause is the same block in the copy.
pub proof fn lemma_copied_block(
    lower: Seq<HeapEntry>,
    cells: Seq<HeapEntry>,
    record: ClauseRecord,
    k: int,
)
    requires
        formed(lower),
        clause_ready(lower, record),
        copied(lower, cells, record.base as int, record.length as int),
        0 <= k < record.length,
        lower[record.base + k].tag == HeapTag::Arity,
    ensures
        block_fits(cells, lower.len() + k),
        block_width(cells, lower.len() + k) == block_width(lower, record.base + k),
        k + 1 + block_width(lower, record.base + k) <= record.length,
        slots_follow(cells, lower.len() + k),
{
    let base = record.base as int;
    let length = record.length as int;
    let to = lower.len() as int;
    lemma_block_ends_before(lower, base + k, base + length);
    assert(copy_of(lower, cells, base, length, k));
    if k + 2 < length {
        assert(copy_of(lower, cells, base, length, k + 2));
    }
    assert(is_wrapped(cells, to + k) == is_wrapped(lower, base + k));
    assert(cell_formed(lower, base + k));
    assert forall|j: int| to + k < j <= to + k + block_width(cells, to + k) implies (
    #[trigger] cells[j]).tag != HeapTag::Arity by {
        assert(copy_of(lower, cells, base, length, j - to));
        assert(lower[base + (j - to)].tag != HeapTag::Arity);
    }
}

/// The lower heap with a copy of a ready clause on top is formed, if the lower
/// heap is.
pub proof fn lemma_copied_is_formed(lower: Seq<HeapEntry>, cells: Seq<HeapEntry>, record: ClauseRecord)
    requires
        formed(lower),
        clause_ready(lower, record),
        copied(lower, cells, record.base as int, record.length as int),
    ensures
        formed(cells),
        grown(lower, cells),
{
    let base = record.base as int;
    let length = record.length as int;
    let to = lower.len() as int;
    assert(copy_of(lower, cells, base, length, 0));
    assert(grown(lower, cells));
    lemma_grown_keeps_formed(lower, cells);
    assert forall|at: int| 0 <= at < cells.len() implies #[trigger] cell_formed(cells, at) by {
        if at >= to {
            let k = at - to;
            let from = base + k;
            assert(copy_of(lower, cells, base, length, k));
            assert(cell_formed(lower, from));
            assert(is_pointer(lower[from]) ==> base <= lower[from].data < base + length);
            if lower[from].tag == HeapTag::Unify {
                let target = lower[from].data as int;
                assert(copy_of(lower, cells, base, length, target - base));
            } else if lower[from].tag == HeapTag::Reference {
                let target = lower[from].data as int;
                lemma_copied_block(lower, cells, record, target - base);
            } else if lower[from].tag == HeapTag::Arity {
                lemma_copied_block(lower, cells, record, k);
            }
        }
    }
}

/// The lower store with a copy of a ready clause on top is sound, if the lower
/// store is.
pub proof fn lemma_copied_is_sound(
    store: Store,
    cells: Seq<HeapEntry>,
    record: ClauseRecord,
    floor: int,
)
    requires
        store.sound(floor),
        clause_ready(store.cells, record),
        floor <= store.cells.len(),
        copied(store.cells, cells, record.base as int, record.length as int),
    ensures
        (Store { cells, trail: store.trail }).sound(floor),
        grown(store.cells, cells),
{
    let lower = store.cells;
    let base = record.base as int;
    let length = record.length as int;
    let to = lower.len() as int;
    lemma_copied_is_formed(lower, cells, record);
    assert forall|at: int| 0 <= at < cells.len() implies (#[trigger] cells[at]).tag
        != HeapTag::Uninitialized by {
        if at >= to {
            assert(copy_of(lower, cells, base, length, at - to));
            assert(lower[base + (at - to)].tag != HeapTag::Uninitialized);
        } else {
            assert(lower[at].tag != HeapTag::Uninitialized);
        }
    }
    assert forall|at: int| 0 <= at < cells.len() implies #[trigger] chain_ends(cells, at) by {
        if at >= to {
            let from = base + (at - to);
            assert(copy_of(lower, cells, base, length, at - to));
            assert(alias_leads_to_variable(lower, from));
            if lower[from].tag == HeapTag::Unify {
                assert(is_pointer(lower[from]));
                let target = lower[from].data as int;
                assert(copy_of(lower, cells, base, length, target - base));
            }
        } else {
            assert(chain_ends(lower, at));
            assert(cell_formed(lower, at));
            if lower[at].tag == HeapTag::Unify {
                let next = lower[at].data as int;
                assert(cells[next] == lower[next]);
                assert(cell_formed(lower, next));
                if lower[next].tag == HeapTag::Unify {
                    assert(cells[lower[next].data as int] == lower[lower[next].data as int]);
                }
            }
        }
    }
    assert forall|at: int| floor <= at < cells.len() && is_pointer(#[trigger] cells[at]) implies floor
        <= cells[at].data by {
        if at >= to {
            let from = base + (at - to);
            assert(copy_of(lower, cells, base, length, at - to));
            assert(is_pointer(lower[from]));
        } else {
            assert(is_pointer(lower[at]));
        }
    }
    assert forall|j: int| 0 <= j < store.trail.len() implies floor <= (#[trigger] store.trail[j])
        < cells.len() && is_pointer(cells[store.trail[j] as int]) by {
        assert(is_pointer(lower[store.trail[j] as int]));
    }
}

/// A copy of a clause shares no variable with the clause or with any other
/// copy: none of its cells points out of it, every unbound variable in it
/// names its own cell in the copy, and the heap below it is as it was.
pub proof fn lemma_copy_is_fresh(lower: Seq<HeapEntry>, cells: Seq<HeapEntry>, record: ClauseRecord)
    requires
        formed(lower),
        clause_ready(lower, record),
        copied(lower, cells, record.base as int, record.length as int),
    ensures
        enclosed(cells, lower.len() as int, cells.len() as int),
        forall|at: int| 0 <= at < lower.len() ==> #[trigger] cells[at] == lower[at],
        forall|k: int|
            0 <= k < record.length ==> (#[trigger] cells[lower.len() + k]).tag == lower[record.base
                + k].tag,
{
    let base = record.base as int;
    let length = record.length as int;
    let to = lower.len() as int;
    assert forall|at: int| to <= at < cells.len() && is_pointer(#[trigger] cells[at]) implies to
        <= cells[at].data < cells.len() by {
        assert(copy_of(lower, cells, base, length, at - to));
        assert(is_pointer(lower[base + (at - to)]));
    }
    assert forall|k: int| 0 <= k < record.length implies (#[trigger] cells[lower.len() + k]).tag
        == lower[record.base + k].tag by {
        assert(copy_of(lower, cells, base, length, k));
    }
}

/// The terms of a copy of a ready clause are blocks of the copy that lie
/// within the heap.
pub proof fn lemma_copied_terms(lower: Seq<HeapEntry>, cells: Seq<HeapEntry>, record: ClauseRecord)
    requires
        formed(lower),
        clause_ready(lower, record),
        copied(lower, cells, record.base as int, record.length as int),
    ensures
        ({
            let terms = relocate_all(
                record.terms,
                record.terms.len(),
                record.base as int,
                record.length as int,
                lower.len() as int,
            );
            &&& terms is Some
            &&& terms->0.len() == record.terms.len()
            &&& forall|j: int|
                0 <= j < record.terms.len() ==> {
                    let term = #[trigger] terms->0[j];
                    &&& term.tag == HeapTag::Reference
                    &&& lower.len() <= term.data < cells.len()
                    &&& block_fits(cells, term.data as int)
                }
        }),
{
    let base = record.base as int;
    let length = record.length as int;
    let to = lower.len() as int;
    assert forall|j: int| 0 <= j < record.terms.len() && is_pointer(
        #[trigger] record.terms[j],
    ) implies base <= record.terms[j].data < base + length by {
        assert(term_ready(lower, record, j));
    }
    lemma_relocate_all_of_closed(record.terms, record.terms.len(), base, length, to);
    let terms = relocate_all(record.terms, record.terms.len(), base, length, to)->0;
    assert forall|j: int| 0 <= j < record.terms.len() implies {
        let term = #[trigger] terms[j];
        &&& term.tag == HeapTag::Reference
        &&& to <= term.data < cells.len()
        &&& block_fits(cells, term.data as int)
    } by {
        assert(term_ready(lower, record, j));
        assert(Some(terms[j]) == relocate(record.terms[j], base, length, to));
        let start = record.terms[j].data as int;
        lemma_copied_block(lower, cells, record, start - base);
    }
}

/// Whether the goal is a block at or above `floor` that ends at `base` or
/// below.
pub open spec fn goal_ready(cells: Seq<HeapEntry>, goal: HeapEntry, floor: int, base: int) -> bool {
    &&& floor <= goal.data
    &&& block_fits(cells, goal.data as int)
    &&& goal.data + 1 + block_width(cells, goal.data as int) <= base
}

/// Whether the spine can be come back to: heap and trail can be put back to
/// its marks, its goals are blocks that lie below its base, and the clauses
/// it has to try are clauses that there are.
pub open spec fn spine_ready(
    store: Store,
    spine: SpineRecord,
    clause_count: nat,
    floor: int,
) -> bool {
    &&& floor <= spine.base
    &&& store.marked(spine.base as int, spine.trail_top as int)
    &&& forall|g: int|
        0 <= g < spine.goals.len() ==> goal_ready(
            store.cells,
            #[trigger] spine.goals[g],
            floor,
            spine.base as int,
        )
    &&& forall|c: int|
        0 <= c < spine.unifiable_clauses.len() ==> (#[trigger] spine.unifiable_clauses[c])
            < clause_count
}

/// Whether the marks of the one spine lie at or below those of the other.
pub open spec fn lies_below(lower: SpineRecord, upper: SpineRecord) -> bool {
    lower.base <= upper.base && lower.trail_top <= upper.trail_top
}

impl Search {
    /// Whether the search is in a state that it can go on from without
    /// meeting anything that is not what it should be: the store is sound,
    /// the clauses lie below `floor` as the compiler left them, and every
    /// spine can be come back to, each with its marks at or above those of
    /// the spines below it.
    pub open spec fn sound(self, clauses: Seq<ClauseRecord>, floor: int) -> bool {
        &&& self.store.sound(floor)
        &&& database_ready(self.store.cells, clauses, floor)
        &&& spines_wf(self.spines, clauses.len(), self.store.cells.len())
        &&& forall|k: int|
            0 <= k < self.spines.len() ==> spine_ready(
                self.store,
                #[trigger] self.spines[k],
                clauses.len(),
                floor,
            )
        &&& forall|j: int, k: int|
            0 <= j < k < self.spines.len() ==> lies_below(
                #[trigger] self.spines[j],
                #[trigger] self.spines[k],
            )
    }
}

/// A spine stays ready when the store changes, if its marks still hold and
/// the blocks below its base are kept.
pub proof fn lemma_spine_kept(
    store: Store,
    other: Store,
    spine: SpineRecord,
    clause_count: nat,
    floor: int,
)
    requires
        spine_ready(store, spine, clause_count, floor),
        other.marked(spine.base as int, spine.trail_top as int),
        blocks_kept(store.cells, other.cells, spine.base as int),
    ensures
        spine_ready(other, spine, clause_count, floor),
{
    assert forall|g: int| 0 <= g < spine.goals.len() implies goal_ready(
        other.cells,
        #[trigger] spine.goals[g],
        floor,
        spine.base as int,
    ) by {
        let goal = spine.goals[g];
        assert(goal_ready(store.cells, goal, floor, spine.base as int));
        assert(block_kept(store.cells, other.cells, goal.data as int, spine.base as int));
    }
}

/// Blocks that are kept twice are kept.
pub proof fn lemma_blocks_kept_chain(
    cells: Seq<HeapEntry>,
    middle: Seq<HeapEntry>,
    other: Seq<HeapEntry>,
    base: int,
)
    requires
        blocks_kept(cells, middle, base),
        blocks_kept(middle, other, base),
    ensures
        blocks_kept(cells, other, base),
{
    assert forall|start: int| 0 <= start < base implies #[trigger] block_kept(
        cells,
        other,
        start,
        base,
    ) by {
        assert(block_kept(cells, middle, start, base));
        assert(block_kept(middle, other, start, base));
    }
}

/// Heaps with their blocks in the same places keep each other's blocks.
pub proof fn lemma_same_blocks_are_kept(cells: Seq<HeapEntry>, other: Seq<HeapEntry>, base: int)
    requires
        same_blocks(cells, other),
    ensures
        blocks_kept(cells, other, base),
{
    assert forall|start: int| 0 <= start < base implies #[trigger] block_kept(
        cells,
        other,
        start,
        base,
    ) by {
        if block_fits(cells, start) {
            lemma_same_blocks_at(cells, other, start);
        }
    }
}

/// A grown heap keeps the blocks of the heap it has grown from, and the
/// marks of its store.
pub proof fn lemma_grown_keeps_marked(
    store: Store,
    longer: Seq<HeapEntry>,
    base: int,
    trail_top: int,
)
    requires
        store.marked(base, trail_top),
        grown(store.cells, longer),
    ensures
        (Store { cells: longer, trail: store.trail }).marked(base, trail_top),
        blocks_kept(store.cells, longer, base),
{
    let cells = store.cells;
    assert forall|start: int| 0 <= start < base implies #[trigger] block_kept(
        cells,
        longer,
        start,
        base,
    ) by {
        if block_fits(cells, start) {
            lemma_grown_keeps_block(cells, longer, start);
            assert(longer[start] == cells[start]);
        }
    }
    assert forall|at: int| 0 <= at < base implies #[trigger] ends_below(longer, at, base) by {
        assert(ends_below(cells, at, base));
        assert(longer[at] == cells[at]);
        if at + 2 < cells.len() {
            assert(longer[at + 2] == cells[at + 2]);
        }
    }
    assert forall|at: int| 0 <= at < base implies #[trigger] points_below_or_trailed(
        longer,
        store.trail,
        at,
        base,
        trail_top,
    ) by {
        assert(points_below_or_trailed(cells, store.trail, at, base, trail_top));
        assert(longer[at] == cells[at]);
    }
    if base < cells.len() {
        assert(longer[base] == cells[base]);
    }
}

/// Giving up the spine on top leaves the search sound.
pub proof fn lemma_backtrack_keeps_sound(
    state: Search,
    clauses: Seq<ClauseRecord>,
    floor: int,
)
    requires
        state.sound(clauses, floor),
        state.spines.len() > 0,
    ensures
        state.backtrack().sound(clauses, floor),
        same_below(state.store.cells, state.backtrack().store.cells, floor),
{
    let top = state.spines.last();
    let store = state.store;
    let after = state.backtrack();
    let base = top.base as int;
    let trail_top = top.trail_top as int;
    assert(spine_ready(store, state.spines[state.spines.len() - 1], clauses.len(), floor));
    lemma_restore_keeps_sound(store, floor, base, trail_top);
    lemma_restored_database(store, clauses, floor, base, trail_top);
    assert forall|k: int| 0 <= k < after.spines.len() implies spine_ready(
        after.store,
        #[trigger] after.spines[k],
        clauses.len(),
        floor,
    ) by {
        let spine = state.spines[k];
        assert(after.spines[k] == spine);
        assert(spine_ready(store, spine, clauses.len(), floor));
        assert(lies_below(state.spines[k], state.spines[state.spines.len() - 1]));
        lemma_restore_keeps_marked(
            store,
            floor,
            base,
            trail_top,
            spine.base as int,
            spine.trail_top as int,
        );
        lemma_blocks_kept_below(store.cells, after.store.cells, base, spine.base as int);
        lemma_spine_kept(store, after.store, spine, clauses.len(), floor);
    }
    assert forall|j: int, k: int| 0 <= j < k < after.spines.len() implies lies_below(
        #[trigger] after.spines[j],
        #[trigger] after.spines[k],
    ) by {
        assert(lies_below(state.spines[j], state.spines[k]));
    }
    assert forall|k: int| 0 <= k < after.spines.len() implies (
    #[trigger] after.spines[k]).num_unified_clauses <= after.spines[k].unifiable_clauses.len()
        <= clauses.len() by {
        assert(after.spines[k] == state.spines[k]);
    }
}

/// Blocks kept below a base are kept below every lower base.
pub proof fn lemma_blocks_kept_below(
    cells: Seq<HeapEntry>,
    other: Seq<HeapEntry>,
    base: int,
    lower: int,
)
    requires
        blocks_kept(cells, other, base),
        lower <= base,
    ensures
        blocks_kept(cells, other, lower),
{
    assert forall|start: int| 0 <= start < lower implies #[trigger] block_kept(
        cells,
        other,
        start,
        lower,
    ) by {
        assert(block_kept(cells, other, start, base));
    }
}

/// Putting heap and trail back to the marks of a spine leaves the clauses
/// ready.
pub proof fn lemma_restored_database(
    store: Store,
    clauses: Seq<ClauseRecord>,
    floor: int,
    base: int,
    trail_top: int,
)
    requires
        store.sound(floor),
        database_ready(store.cells, clauses, floor),
        store.marked(base, trail_top),
        floor <= base,
    ensures
        database_ready(store.restore(base, trail_top).cells, clauses, floor),
{
    let restored = store.restore(base, trail_top);
    lemma_restore_keeps_sound(store, floor, base, trail_top);
    lemma_unwind_keeps_sound(store, floor, trail_top);
    if floor < base {
        let unwound = store.unwind(trail_top);
        assert(unwound.cells[floor] == store.cells[floor]);
        assert(restored.cells[floor] == unwound.cells[floor]);
    }
    lemma_database_kept(store.cells, restored.cells, clauses, floor);
}

/// A sound store can be put back to where it is now.
pub proof fn lemma_fresh_marks(store: Store, floor: int)
    requires
        store.sound(floor),
    ensures
        store.marked(store.cells.len() as int, store.trail.len() as int),
{
    let cells = store.cells;
    let base = cells.len() as int;
    assert forall|at: int| 0 <= at < base implies #[trigger] ends_below(cells, at, base) by {
        assert(cell_formed(cells, at));
    }
    assert forall|at: int| 0 <= at < base implies #[trigger] points_below_or_trailed(
        cells,
        store.trail,
        at,
        base,
        store.trail.len() as int,
    ) by {
        assert(cell_formed(cells, at));
    }
}

/// The state in which the next clause of the spine on top counts as tried,
/// with heap and trail put back to the marks of that spine.
pub open spec fn tried(state: Search) -> Search {
    let top = state.spines.last();
    Search {
        store: state.store.restore(top.base as int, top.trail_top as int),
        spines: state.spines.drop_last().push(
            SpineRecord { num_unified_clauses: (top.num_unified_clauses + 1) as usize, ..top },
        ),
        answered: false,
    }
}

/// Counting a clause as tried and putting heap and trail back leaves the
/// search sound, with the heap as long as the base of the spine on top
/// says.
pub proof fn lemma_tried_is_sound(
    state: Search,
    clauses: Seq<ClauseRecord>,
    floor: int,
)
    requires
        state.sound(clauses, floor),
        state.spines.len() > 0,
        state.spines.last().num_unified_clauses < state.spines.last().unifiable_clauses.len(),
    ensures
        tried(state).sound(clauses, floor),
        tried(state).store.cells.len() == state.spines.last().base,
        tried(state).store.trail.len() == state.spines.last().trail_top,
        same_below(state.store.cells, tried(state).store.cells, floor),
{
    let top = state.spines.last();
    let store = state.store;
    let after = tried(state);
    let base = top.base as int;
    let trail_top = top.trail_top as int;
    let last = state.spines.len() - 1;
    assert(spine_ready(store, state.spines[last], clauses.len(), floor));
    lemma_restore_keeps_sound(store, floor, base, trail_top);
    lemma_restored_database(store, clauses, floor, base, trail_top);
    assert forall|k: int| 0 <= k < after.spines.len() implies spine_ready(
        after.store,
        #[trigger] after.spines[k],
        clauses.len(),
        floor,
    ) by {
        let spine = state.spines[k];
        assert(spine_ready(store, spine, clauses.len(), floor));
        if k < last {
            assert(after.spines[k] == spine);
            assert(lies_below(state.spines[k], state.spines[last]));
            lemma_restore_keeps_marked(
                store,
                floor,
                base,
                trail_top,
                spine.base as int,
                spine.trail_top as int,
            );
            lemma_blocks_kept_below(store.cells, after.store.cells, base, spine.base as int);
            lemma_spine_kept(store, after.store, spine, clauses.len(), floor);
        } else {
            lemma_spine_kept(store, after.store, spine, clauses.len(), floor);
            assert forall|g: int| 0 <= g < after.spines[k].goals.len() implies goal_ready(
                after.store.cells,
                #[trigger] after.spines[k].goals[g],
                floor,
                after.spines[k].base as int,
            ) by {
                assert(goal_ready(after.store.cells, spine.goals[g], floor, spine.base as int));
            }
            assert forall|c: int|
                0 <= c < after.spines[k].unifiable_clauses.len() implies (
            #[trigger] after.spines[k].unifiable_clauses[c]) < clauses.len() by {
                assert(spine.unifiable_clauses[c] < clauses.len());
            }
        }
    }
    assert forall|j: int, k: int| 0 <= j < k < after.spines.len() implies lies_below(
        #[trigger] after.spines[j],
        #[trigger] after.spines[k],
    ) by {
        assert(lies_below(state.spines[j], state.spines[k]));
    }
    assert forall|k: int| 0 <= k < after.spines.len() implies (
    #[trigger] after.spines[k]).num_unified_clauses <= after.spines[k].unifiable_clauses.len()
        <= clauses.len() by {
        assert(state.spines[k].num_unified_clauses <= state.spines[k].unifiable_clauses.len());
    }
}

/// After a clause has been copied and its head unified with the goal, the
/// spines that were there can still be come back to.
pub proof fn lemma_spine_kept_by_attempt(
    restored: Store,
    copied_cells: Seq<HeapEntry>,
    unified: Store,
    spine: SpineRecord,
    clause_count: nat,
    floor: int,
)
    requires
        spine_ready(restored, spine, clause_count, floor),
        grown(restored.cells, copied_cells),
        (Store { cells: copied_cells, trail: restored.trail }).marked(
            spine.base as int,
            spine.trail_top as int,
        ) ==> unified.marked(spine.base as int, spine.trail_top as int),
        same_blocks(copied_cells, unified.cells),
    ensures
        spine_ready(unified, spine, clause_count, floor),
{
    let base = spine.base as int;
    lemma_grown_keeps_marked(restored, copied_cells, base, spine.trail_top as int);
    lemma_same_blocks_are_kept(copied_cells, unified.cells, base);
    lemma_blocks_kept_chain(restored.cells, copied_cells, unified.cells, base);
    lemma_spine_kept(restored, unified, spine, clause_count, floor);
}

/// Trying a clause leaves the search sound and reports no violation.
pub proof fn lemma_attempt_keeps_sound(
    state: Search,
    clauses: Seq<ClauseRecord>,
    limits: Limits,
    floor: int,
)
    requires
        state.sound(clauses, floor),
        !state.answered,
        state.spines.len() > 0,
        state.spines.last().goals.len() > 0,
        state.spines.last().num_unified_clauses < state.spines.last().unifiable_clauses.len(),
    ensures
        state.attempt(clauses, limits).0.sound(clauses, floor),
        state.attempt(clauses, limits).1 != Err::<Progress, EngineError>(
            EngineError::InternalInvariantViolation,
        ),
        same_below(state.store.cells, state.attempt(clauses, limits).0.store.cells, floor),
{
    let last = state.spines.len() - 1;
    let top = state.spines.last();
    let goal = top.goals[0];
    let picked = top.unifiable_clauses[top.num_unified_clauses as int];
    let before = tried(state);
    let restored = before.store;
    let advanced = before.spines;
    lemma_tried_is_sound(state, clauses, floor);
    lemma_step_makes_progress(state, clauses, limits);
    assert(state.step(clauses, limits) == state.attempt(clauses, limits));
    assert(spine_ready(state.store, state.spines[last], clauses.len(), floor));
    assert(picked < clauses.len());
    let clause = clauses[picked as int];
    assert(clause_stored(restored.cells, clauses[picked as int], floor));
    let to = restored.cells.len() as int;
    lemma_renamed_is_copied(restored.cells, clause, limits.heap as int);
    match renamed(restored.cells, clause, limits.heap as int) {
        Err(error) => {},
        Ok(cells) => {
            let copied_store = Store { cells, trail: restored.trail };
            lemma_copied_is_sound(restored, cells, clause, floor);
            lemma_copied_terms(restored.cells, cells, clause);
            let terms = relocate_all(
                clause.terms,
                clause.terms.len(),
                clause.base as int,
                clause.length as int,
                to,
            )->0;
            assert(spine_ready(restored, advanced[last], clauses.len(), floor));
            assert(goal_ready(restored.cells, advanced[last].goals[0], floor, top.base as int));
            let head = terms[0];
            let unified = unify_terms(
                copied_store,
                goal.data as int,
                head.data as int,
                copied_store.cells.len(),
                limits.trail as nat,
            );
            lemma_unify_keeps_sound(
                copied_store,
                goal.data as int,
                head.data as int,
                copied_store.cells.len(),
                limits.trail as nat,
                floor,
            );
            if unified.1 == Ok::<bool, EngineError>(true) {
                let goals = terms.skip(1) + top.goals.skip(1);
                let after = state.attempt(clauses, limits).0;
                // Every goal of the new spine is a block within the heap.
                assert forall|g: int| 0 <= g < goals.len() implies goal_ready(
                    unified.0.cells,
                    #[trigger] goals[g],
                    floor,
                    unified.0.cells.len() as int,
                ) by {
                    if g < terms.len() - 1 {
                        assert(goals[g] == terms[g + 1]);
                        lemma_same_blocks_at(cells, unified.0.cells, goals[g].data as int);
                    } else {
                        let from = g - (terms.len() - 1) + 1;
                        assert(goals[g] == top.goals[from]);
                        assert(goal_ready(
                            restored.cells,
                            advanced[last].goals[from],
                            floor,
                            top.base as int,
                        ));
                        lemma_grown_keeps_block(restored.cells, cells, goals[g].data as int);
                        lemma_same_blocks_at(cells, unified.0.cells, goals[g].data as int);
                    }
                }
                if goals.len() > 0 {
                    assert(goal_ready(
                        unified.0.cells,
                        goals[0],
                        floor,
                        unified.0.cells.len() as int,
                    ));
                    lemma_candidates_are_the_matches(
                        unified.0.cells,
                        clauses,
                        goals[0],
                        clauses.len(),
                    );
                }
                let found = candidates(unified.0.cells, clauses, goals);
                if goals.len() > 0 {
                    lemma_sound_block_is_readable(unified.0, goals[0], floor);
                }
                assert(found is Ok);
                let made = SpineRecord {
                    base: unified.0.cells.len() as usize,
                    trail_top: unified.0.trail.len() as usize,
                    goals,
                    dereferenced_elements: Seq::empty(),
                    unifiable_clauses: found->Ok_0,
                    num_unified_clauses: 0,
                };
                assert(after.store == unified.0);
                assert(after.spines == advanced.push(made));
                // The clauses are still ready.
                assert(same_below(restored.cells, unified.0.cells, floor)) by {
                    assert forall|at: int|
                        0 <= at < floor && at < restored.cells.len() implies #[trigger] unified.0.cells[at]
                        == restored.cells[at] by {
                        assert(cells[at] == restored.cells[at]);
                    }
                }
                assert(same_below(state.store.cells, unified.0.cells, floor)) by {
                    assert forall|at: int|
                        0 <= at < floor && at < state.store.cells.len() implies #[trigger] unified.0.cells[at]
                        == state.store.cells[at] by {
                        assert(restored.cells[at] == state.store.cells[at]);
                        assert(unified.0.cells[at] == restored.cells[at]);
                    }
                }
                assert(floor < unified.0.cells.len() ==> unified.0.cells[floor].tag
                    == HeapTag::Arity) by {
                    if floor < unified.0.cells.len() {
                        assert(cells[floor].tag == HeapTag::Arity) by {
                            if floor < to {
                                assert(cells[floor] == restored.cells[floor]);
                            }
                        }
                    }
                }
                lemma_database_kept(restored.cells, unified.0.cells, clauses, floor);
                // The spines that were there can still be come back to.
                lemma_fresh_marks(unified.0, floor);
                assert forall|k: int| 0 <= k < after.spines.len() implies spine_ready(
                    after.store,
                    #[trigger] after.spines[k],
                    clauses.len(),
                    floor,
                ) by {
                    if k < advanced.len() {
                        let spine = advanced[k];
                        assert(after.spines[k] == spine);
                        assert(spine_ready(restored, spine, clauses.len(), floor));
                        lemma_grown_keeps_marked(
                            restored,
                            cells,
                            spine.base as int,
                            spine.trail_top as int,
                        );
                        lemma_unify_keeps_marked(
                            copied_store,
                            goal.data as int,
                            head.data as int,
                            copied_store.cells.len(),
                            limits.trail as nat,
                            floor,
                            spine.base as int,
                            spine.trail_top as int,
                        );
                        lemma_spine_kept_by_attempt(
                            restored,
                            cells,
                            unified.0,
                            spine,
                            clauses.len(),
                            floor,
                        );
                    } else {
                        assert(after.spines[k] == made);
                    }
                }
                assert forall|j: int, k: int| 0 <= j < k < after.spines.len() implies lies_below(
                    #[trigger] after.spines[j],
                    #[trigger] after.spines[k],
                ) by {
                    if k < advanced.len() {
                        assert(lies_below(advanced[j], advanced[k]));
                    } else {
                        assert(spine_ready(after.store, after.spines[j], clauses.len(), floor));
                    }
                }
            }
        },
    }
}

/// Every step leaves a sound search sound, and no step of a sound search
/// reports a violation.
pub proof fn lemma_step_keeps_sound(
    state: Search,
    clauses: Seq<ClauseRecord>,
    limits: Limits,
    floor: int,
)
    requires
        state.sound(clauses, floor),
    ensures
        state.step(clauses, limits).0.sound(clauses, floor),
        state.step(clauses, limits).1 != Err::<Progress, EngineError>(
            EngineError::InternalInvariantViolation,
        ),
        same_below(state.store.cells, state.step(clauses, limits).0.store.cells, floor),
{
    if state.spines.len() == 0 {
    } else if state.answered {
        lemma_backtrack_keeps_sound(state, clauses, floor);
    } else if state.spines.last().goals.len() == 0 {
        let after = Search { answered: true, ..state };
        assert forall|k: int| 0 <= k < after.spines.len() implies spine_ready(
            after.store,
            #[trigger] after.spines[k],
            clauses.len(),
            floor,
        ) by {
            assert(spine_ready(state.store, state.spines[k], clauses.len(), floor));
        }
    } else if state.spines.last().num_unified_clauses
        < state.spines.last().unifiable_clauses.len() {
        lemma_attempt_keeps_sound(state, clauses, limits, floor);
    } else {
        lemma_backtrack_keeps_sound(state, clauses, floor);
    }
}

/// A search that starts sound stays sound for as long as it goes on, and
/// never reports a violation.
pub proof fn lemma_search_stays_sound(
    state: Search,
    clauses: Seq<ClauseRecord>,
    limits: Limits,
    floor: int,
    steps: nat,
)
    requires
        state.sound(clauses, floor),
    ensures
        state.advance(clauses, limits, steps).sound(clauses, floor),
        state.outcome_after(clauses, limits, steps).1 != Err::<Progress, EngineError>(
            EngineError::InternalInvariantViolation,
        ),
    decreases steps,
{
    if steps > 0 {
        lemma_search_stays_sound(state, clauses, limits, floor, (steps - 1) as nat);
        lemma_step_keeps_sound(
            state.advance(clauses, limits, (steps - 1) as nat),
            clauses,
            limits,
            floor,
        );
    }
    lemma_step_keeps_sound(state.advance(clauses, limits, steps), clauses, limits, floor);
}

} // verus!
