//! The heap that a search works on stays a heap of terms: whatever is bound
//! and taken back, every pointer leads to where it may, and every chain of
//! bindings comes to an end.

use vstd::prelude::*;
use crate::block::{
    block_fits, block_width, first_argument, follow, follows, settled, slot_readable,
    subterms_readable,
};
use crate::error::EngineError;
use crate::heap::{HeapEntry, HeapTag};
use crate::laws::shape::{
    cell_formed, filled, formed, is_pointer, lemma_same_blocks_at, lemma_write_keeps_formed,
    same_blocks, slots_follow,
};
use crate::laws::unify_laws::lemma_resolve_ends;
use crate::layout::cell;
use crate::search::is_ground;
use crate::store::{binding_to, is_unbound, resolve, Store};
use crate::unify::{unify_arguments, unify_terms};

verus! {

/// Whether the binding in the cell at `at`, if there is one, leads to a cell
/// lower down or to a ground cell.
pub open spec fn leads_down(cells: Seq<HeapEntry>, at: int) -> bool {
    cells[at].tag == HeapTag::Unify ==> cells[at].data < at || (cells[at].data < cells.len()
        && is_ground(cells[cells[at].data as int]))
}

/// Whether the binding in the cell at `at`, if there is one, leads to a cell
/// from which bindings lead down.
pub open spec fn chain_ends(cells: Seq<HeapEntry>, at: int) -> bool {
    cells[at].tag == HeapTag::Unify ==> cells[at].data < cells.len() && leads_down(
        cells,
        cells[at].data as int,
    )
}

/// Whether every binding leads to a cell from which bindings lead down, so
/// that no chain of bindings runs in a circle.
pub open spec fn chains_end(cells: Seq<HeapEntry>) -> bool {
    forall|at: int| 0 <= at < cells.len() ==> #[trigger] chain_ends(cells, at)
}

/// Whether no cell at or above `floor` points below it.
pub open spec fn stays_above(cells: Seq<HeapEntry>, floor: int) -> bool {
    forall|at: int|
        floor <= at < cells.len() && is_pointer(#[trigger] cells[at]) ==> floor <= cells[at].data
}

/// Whether the block at `start`, if it lies within the heap and ends at
/// `base` or below, is the same block in the other heap.
pub open spec fn block_kept(
    cells: Seq<HeapEntry>,
    other: Seq<HeapEntry>,
    start: int,
    base: int,
) -> bool {
    block_fits(cells, start) && start + 1 + block_width(cells, start) <= base ==> block_fits(
        other,
        start,
    ) && block_width(other, start) == block_width(cells, start) && other[start] == cells[start]
}

/// Whether every block that ends at `base` or below is the same block in
/// the other heap.
pub open spec fn blocks_kept(cells: Seq<HeapEntry>, other: Seq<HeapEntry>, base: int) -> bool {
    forall|start: int| 0 <= start < base ==> #[trigger] block_kept(cells, other, start, base)
}

/// Whether the cells below `floor` are the same in both heaps.
pub open spec fn same_below(cells: Seq<HeapEntry>, other: Seq<HeapEntry>, floor: int) -> bool {
    forall|at: int| 0 <= at < floor && at < cells.len() ==> #[trigger] other[at] == cells[at]
}

impl Store {
    /// Whether the store is one that a search can work on. The heap is
    /// formed and every cell is written; it starts with a block; no chain of
    /// bindings runs in a circle; nothing at or above `floor` points below
    /// it; and every cell on the trail lies at or above `floor` and holds a
    /// variable, bound or not.
    pub open spec fn sound(self, floor: int) -> bool {
        &&& 0 <= floor
        &&& self.cells.len() <= usize::MAX
        &&& self.trail.len() <= usize::MAX
        &&& formed(self.cells)
        &&& filled(self.cells, 0, self.cells.len() as int)
        &&& chains_end(self.cells)
        &&& self.cells.len() > 0 ==> self.cells[0].tag == HeapTag::Arity
        &&& stays_above(self.cells, floor)
        &&& forall|j: int|
            0 <= j < self.trail.len() ==> floor <= (#[trigger] self.trail[j]) < self.cells.len()
                && is_pointer(self.cells[self.trail[j] as int])
    }

    /// Whether heap and trail can be put back to the marks `base` and
    /// `trail_top`. The marks lie within heap and trail. No block lies
    /// across `base`. Every cell below `base` that points to `base` or above
    /// is on the trail at `trail_top` or above, and the cells on the trail
    /// below `trail_top` lie below `base`.
    pub open spec fn marked(self, base: int, trail_top: int) -> bool {
        &&& 0 <= base <= self.cells.len()
        &&& 0 <= trail_top <= self.trail.len()
        &&& base < self.cells.len() ==> self.cells[base].tag == HeapTag::Arity
        &&& forall|at: int| 0 <= at < base ==> #[trigger] ends_below(self.cells, at, base)
        &&& forall|at: int|
            0 <= at < base ==> #[trigger] points_below_or_trailed(
                self.cells,
                self.trail,
                at,
                base,
                trail_top,
            )
        &&& forall|j: int| 0 <= j < trail_top ==> (#[trigger] self.trail[j]) < base
    }
}

/// Whether the block that starts at `at`, if one does, ends at `base` or
/// below.
pub open spec fn ends_below(cells: Seq<HeapEntry>, at: int, base: int) -> bool {
    cells[at].tag == HeapTag::Arity ==> at + 1 + block_width(cells, at) <= base
}

/// Whether the cell at `at` is on the trail at `trail_top` or above.
pub open spec fn trailed(trail: Seq<usize>, at: int, trail_top: int) -> bool {
    exists|j: int| trail_top <= j < trail.len() && #[trigger] trail[j] == at
}

/// Whether the cell at `at` points below `base`, or is on the trail at
/// `trail_top` or above.
pub open spec fn points_below_or_trailed(
    cells: Seq<HeapEntry>,
    trail: Seq<usize>,
    at: int,
    base: int,
    trail_top: int,
) -> bool {
    is_pointer(cells[at]) && cells[at].data >= base ==> trailed(trail, at, trail_top)
}

/// From a binding that leads down, the walk comes to an end within as many
/// hops as the cell lies above the first.
pub proof fn lemma_descent_ends(cells: Seq<HeapEntry>, at: int, hops: nat)
    requires
        formed(cells),
        chains_end(cells),
        cells.len() > 0,
        cells[0].tag == HeapTag::Arity,
        0 <= at < cells.len(),
        cells[at].tag == HeapTag::Unify,
        leads_down(cells, at),
        hops >= at,
    ensures
        resolve(cells, at, hops) is Some,
    decreases at,
{
    assert(cell_formed(cells, at));
    assert(chain_ends(cells, at));
    let target = cells[at].data as int;
    assert(cell_formed(cells, target));
    assert(at >= 1);
    assert(resolve(cells, at, hops) == resolve(cells, target, (hops - 1) as nat));
    if cells[target].tag == HeapTag::Unify {
        assert(target < at);
        lemma_descent_ends(cells, target, (hops - 1) as nat);
    } else if cells[target].tag == HeapTag::Reference {
        assert(target < at);
        assert(target >= 1);
        let block = cells[target].data as int;
        assert(block_fits(cells, block));
        assert(resolve(cells, block, (hops - 2) as nat) == Some(block));
        assert(resolve(cells, target, (hops - 1) as nat) == resolve(
            cells,
            block,
            (hops - 2) as nat,
        ));
    } else {
        assert(resolve(cells, target, (hops - 1) as nat) == Some(target));
    }
}

/// In a heap that is formed and whose chains end, every cell resolves.
pub proof fn lemma_resolve_succeeds(cells: Seq<HeapEntry>, at: int)
    requires
        formed(cells),
        chains_end(cells),
        cells.len() > 0 ==> cells[0].tag == HeapTag::Arity,
        0 <= at < cells.len(),
    ensures
        resolve(cells, at, cells.len()) is Some,
{
    assert(cell_formed(cells, at));
    assert(chain_ends(cells, at));
    if cells[at].tag == HeapTag::Unify {
        let target = cells[at].data as int;
        assert(cell_formed(cells, target));
        if cells[target].tag == HeapTag::Unify {
            lemma_descent_ends(cells, target, (cells.len() - 1) as nat);
        } else if cells[target].tag == HeapTag::Reference {
            let block = cells[target].data as int;
            assert(block_fits(cells, block));
            assert(resolve(cells, block, (cells.len() - 2) as nat) == Some(block));
        }
    } else if cells[at].tag == HeapTag::Reference {
        let block = cells[at].data as int;
        assert(block_fits(cells, block));
        assert(resolve(cells, block, (cells.len() - 1) as nat) == Some(block));
    }
}

/// What following the variables from the entry of a cell leads to is the
/// entry of a cell: a reference among them leads to a block.
pub proof fn lemma_followed_is_formed(
    store: Store,
    pointer: HeapEntry,
    hops: nat,
    at: int,
    floor: int,
)
    requires
        store.sound(floor),
        0 <= at < store.cells.len(),
        store.cells[at] == pointer,
        follow(store.cells, pointer, hops).tag == HeapTag::Reference,
    ensures
        follow(store.cells, pointer, hops).data < store.cells.len(),
        store.cells[follow(store.cells, pointer, hops).data as int].tag == HeapTag::Arity,
    decreases hops,
{
    let cells = store.cells;
    assert(cell_formed(cells, at));
    if hops == 0 || settled(cells, pointer) {
    } else {
        lemma_followed_is_formed(
            store,
            cells[pointer.data as int],
            (hops - 1) as nat,
            pointer.data as int,
            floor,
        );
    }
}

/// From a cell whose binding leads down, following the variables comes to
/// an end within as many hops as the cell lies above the first.
pub proof fn lemma_descent_follows(cells: Seq<HeapEntry>, at: int, hops: nat)
    requires
        formed(cells),
        chains_end(cells),
        cells.len() > 0,
        cells[0].tag == HeapTag::Arity,
        0 <= at < cells.len(),
        cells[at].tag == HeapTag::Unify,
        leads_down(cells, at),
        hops >= at,
    ensures
        follows(cells, cells[at], hops),
    decreases at,
{
    assert(cell_formed(cells, at));
    assert(chain_ends(cells, at));
    let target = cells[at].data as int;
    assert(cell_formed(cells, target));
    assert(at >= 1);
    let next = cells[target];
    if next == cells[at] {
    } else if next.tag == HeapTag::Unify {
        assert(target < at);
        lemma_descent_follows(cells, target, (hops - 1) as nat);
    } else if next.tag == HeapTag::Variable {
        assert(cells[next.data as int] == next);
        assert(follows(cells, next, (hops - 1) as nat));
    } else {
        assert(follows(cells, next, (hops - 1) as nat));
    }
}

/// In a sound store every cell can be read as a subterm.
pub proof fn lemma_sound_slot_is_readable(store: Store, slot: int, floor: int)
    requires
        store.sound(floor),
        0 <= slot < store.cells.len(),
    ensures
        slot_readable(store.cells, slot),
{
    let cells = store.cells;
    let entry = cells[slot];
    assert(cell_formed(cells, slot));
    assert(chain_ends(cells, slot));
    if entry.tag == HeapTag::Unify {
        let target = entry.data as int;
        let next = cells[target];
        assert(cell_formed(cells, target));
        if next == entry {
        } else if next.tag == HeapTag::Unify {
            lemma_descent_follows(cells, target, (cells.len() - 1) as nat);
        } else if next.tag == HeapTag::Variable {
            assert(cells[next.data as int] == next);
            assert(follows(cells, next, (cells.len() - 1) as nat));
        } else {
            assert(follows(cells, next, (cells.len() - 1) as nat));
        }
    } else if entry.tag == HeapTag::Variable {
        assert(cells[entry.data as int] == entry);
    }
    assert(follows(cells, entry, cells.len()));
    if follow(cells, entry, cells.len()).tag == HeapTag::Reference {
        lemma_followed_is_formed(store, entry, cells.len(), slot, floor);
    }
}

/// In a sound store the arguments of every block can be read.
pub proof fn lemma_sound_block_is_readable(store: Store, reference: HeapEntry, floor: int)
    requires
        store.sound(floor),
        block_fits(store.cells, reference.data as int),
    ensures
        subterms_readable(store.cells, reference),
        slot_readable(store.cells, reference.data + 1),
{
    let cells = store.cells;
    let start = reference.data as int;
    assert forall|slot: int|
        first_argument(cells, start) <= slot < first_argument(cells, start)
            + cells[start].data implies #[trigger] slot_readable(cells, slot) by {
        lemma_sound_slot_is_readable(store, slot, floor);
    }
    lemma_sound_slot_is_readable(store, start + 1, floor);
}

/// A walk that starts at or above the floor ends at or above it.
pub proof fn lemma_resolve_stays_above(cells: Seq<HeapEntry>, at: int, hops: nat, floor: int)
    requires
        stays_above(cells, floor),
        floor <= at,
        resolve(cells, at, hops) is Some,
    ensures
        floor <= resolve(cells, at, hops)->0,
    decreases hops,
{
    if cells[at].tag == HeapTag::Unify || cells[at].tag == HeapTag::Reference {
        assert(is_pointer(cells[at]));
        lemma_resolve_stays_above(cells, cells[at].data as int, (hops - 1) as nat, floor);
    }
}

/// Binding an unbound variable to a term keeps the store sound, if both lie
/// at or above the floor and the term, if it is an unbound variable too,
/// lies lower down.
pub proof fn lemma_bind_keeps_sound(store: Store, variable: int, target: int, floor: int)
    requires
        store.sound(floor),
        store.trail.len() < usize::MAX,
        is_unbound(store.cells, variable),
        floor <= variable,
        floor <= target < store.cells.len(),
        target != variable,
        store.cells[target].tag != HeapTag::Unify,
        store.cells[target].tag != HeapTag::Reference,
        store.cells[target].tag == HeapTag::Variable ==> target < variable,
    ensures
        store.bind(variable, target).sound(floor),
        same_blocks(store.cells, store.bind(variable, target).cells),
        same_below(store.cells, store.bind(variable, target).cells, floor),
{
    let cells = store.cells;
    let entry = binding_to(cells, target);
    let after = store.bind(variable, target);
    assert(cell_formed(cells, target));
    lemma_write_keeps_formed(cells, variable, entry);
    assert(cells[target].tag != HeapTag::Uninitialized);
    assert forall|at: int| 0 <= at < after.cells.len() implies (#[trigger] after.cells[at]).tag
        != HeapTag::Uninitialized by {
        if at != variable {
            assert(cells[at].tag != HeapTag::Uninitialized);
        }
    }
    assert forall|at: int| 0 <= at < after.cells.len() implies #[trigger] chain_ends(
        after.cells,
        at,
    ) by {
        assert(chain_ends(cells, at));
        if at == variable {
        } else if after.cells[at].tag == HeapTag::Unify {
            let next = cells[at].data as int;
            if next == variable {
            } else {
                assert(after.cells[next] == cells[next]);
                if cells[next].tag == HeapTag::Unify && cells[next].data >= next {
                    let last = cells[next].data as int;
                    assert(is_ground(cells[last]));
                    assert(last != variable);
                }
            }
        }
    }
    assert forall|at: int|
        floor <= at < after.cells.len() && is_pointer(#[trigger] after.cells[at]) implies floor
        <= after.cells[at].data by {
        if at != variable {
            assert(is_pointer(cells[at]));
        }
    }
    assert forall|j: int| 0 <= j < after.trail.len() implies floor <= (#[trigger] after.trail[j])
        < after.cells.len() && is_pointer(after.cells[after.trail[j] as int]) by {
        if j < store.trail.len() {
            assert(after.trail[j] == store.trail[j]);
            assert(is_pointer(cells[store.trail[j] as int]));
        }
    }
}

/// Binding a variable keeps the marks: the binding is on the trail above
/// every mark.
pub proof fn lemma_bind_keeps_marked(
    store: Store,
    variable: int,
    target: int,
    base: int,
    trail_top: int,
)
    requires
        store.marked(base, trail_top),
        store.cells.len() <= usize::MAX,
        0 <= variable < store.cells.len(),
        0 <= target < store.cells.len(),
        store.cells[variable].tag != HeapTag::Arity,
    ensures
        store.bind(variable, target).marked(base, trail_top),
{
    let cells = store.cells;
    let after = store.bind(variable, target);
    let entry = binding_to(cells, target);
    assert(after.trail[store.trail.len() as int] == variable);
    assert forall|at: int| 0 <= at < base implies #[trigger] ends_below(after.cells, at, base) by {
        assert(ends_below(cells, at, base));
        if at + 2 < cells.len() {
            assert((after.cells[at + 2].tag == HeapTag::Arity) == (cells[at + 2].tag
                == HeapTag::Arity));
        }
    }
    assert forall|at: int| 0 <= at < base implies #[trigger] points_below_or_trailed(
        after.cells,
        after.trail,
        at,
        base,
        trail_top,
    ) by {
        assert(points_below_or_trailed(cells, store.trail, at, base, trail_top));
        if at == variable {
            assert(trailed(after.trail, at, trail_top));
        } else if is_pointer(cells[at]) && cells[at].data >= base {
            let j = choose|j: int| trail_top <= j < store.trail.len() && #[trigger] store.trail[j]
                == at;
            assert(after.trail[j] == at);
        }
    }
    assert forall|j: int| 0 <= j < trail_top implies (#[trigger] after.trail[j]) < base by {
        assert(after.trail[j] == store.trail[j]);
    }
}

/// On a sound store, the terms above the floor unify or do not, and the
/// store stays sound: unification reports no violation, changes no block,
/// and leaves the heap as long as it was.
pub proof fn lemma_unify_keeps_sound(
    store: Store,
    a: int,
    b: int,
    depth: nat,
    trail_limit: nat,
    floor: int,
)
    requires
        store.sound(floor),
        floor <= a < store.cells.len(),
        floor <= b < store.cells.len(),
        trail_limit <= usize::MAX,
    ensures
        unify_terms(store, a, b, depth, trail_limit).0.sound(floor),
        same_blocks(store.cells, unify_terms(store, a, b, depth, trail_limit).0.cells),
        same_below(store.cells, unify_terms(store, a, b, depth, trail_limit).0.cells, floor),
        store.trail.len() <= unify_terms(store, a, b, depth, trail_limit).0.trail.len(),
        unify_terms(store, a, b, depth, trail_limit).1 != Err::<bool, EngineError>(
            EngineError::InternalInvariantViolation,
        ),
    decreases depth, 0nat, 0nat,
{
    let cells = store.cells;
    lemma_resolve_succeeds(cells, a);
    lemma_resolve_succeeds(cells, b);
    lemma_resolve_ends(cells, a, cells.len());
    lemma_resolve_ends(cells, b, cells.len());
    lemma_resolve_stays_above(cells, a, cells.len(), floor);
    lemma_resolve_stays_above(cells, b, cells.len(), floor);
    let x = resolve(cells, a, cells.len())->0;
    let y = resolve(cells, b, cells.len())->0;
    assert(same_blocks(cells, cells));
    assert(cell_formed(cells, x));
    assert(cell_formed(cells, y));
    if x == y {
    } else if store.trail.len() >= trail_limit && (cells[x].tag == HeapTag::Variable
        || cells[y].tag == HeapTag::Variable) {
    } else if cells[x].tag == HeapTag::Variable && cells[y].tag == HeapTag::Variable {
        if x > y {
            lemma_bind_keeps_sound(store, x, y, floor);
        } else {
            lemma_bind_keeps_sound(store, y, x, floor);
        }
    } else if cells[x].tag == HeapTag::Variable {
        lemma_bind_keeps_sound(store, x, y, floor);
    } else if cells[y].tag == HeapTag::Variable {
        lemma_bind_keeps_sound(store, y, x, floor);
    } else if cells[x].tag == HeapTag::Arity && cells[y].tag == HeapTag::Arity {
        if block_width(cells, x) > 1 && depth > 0 && block_width(cells, x) == block_width(
            cells,
            y,
        ) {
            lemma_arguments_keep_sound(
                store,
                x + 2,
                y + 2,
                (block_width(cells, x) - 1) as nat,
                (depth - 1) as nat,
                trail_limit,
                floor,
            );
        }
    }
}

/// On a sound store, unifying arguments above the floor keeps the store
/// sound and reports no violation.
pub proof fn lemma_arguments_keep_sound(
    store: Store,
    a: int,
    b: int,
    count: nat,
    depth: nat,
    trail_limit: nat,
    floor: int,
)
    requires
        store.sound(floor),
        floor <= a,
        floor <= b,
        a + count <= store.cells.len(),
        b + count <= store.cells.len(),
        trail_limit <= usize::MAX,
    ensures
        unify_arguments(store, a, b, count, depth, trail_limit).0.sound(floor),
        same_blocks(store.cells, unify_arguments(store, a, b, count, depth, trail_limit).0.cells),
        same_below(
            store.cells,
            unify_arguments(store, a, b, count, depth, trail_limit).0.cells,
            floor,
        ),
        store.trail.len() <= unify_arguments(store, a, b, count, depth, trail_limit).0.trail.len(),
        unify_arguments(store, a, b, count, depth, trail_limit).1 != Err::<bool, EngineError>(
            EngineError::InternalInvariantViolation,
        ),
    decreases depth, 1nat, count,
{
    assert(same_blocks(store.cells, store.cells));
    if count > 0 {
        let before = unify_arguments(store, a, b, (count - 1) as nat, depth, trail_limit);
        lemma_arguments_keep_sound(store, a, b, (count - 1) as nat, depth, trail_limit, floor);
        if before.1 == Ok::<bool, EngineError>(true) {
            lemma_unify_keeps_sound(
                before.0,
                a + count - 1,
                b + count - 1,
                depth,
                trail_limit,
                floor,
            );
            let after = unify_terms(before.0, a + count - 1, b + count - 1, depth, trail_limit);
            lemma_same_blocks_chain(store.cells, before.0.cells, after.0.cells);
            assert forall|at: int| 0 <= at < floor && at < store.cells.len() implies #[trigger] after.0.cells[at]
                == store.cells[at] by {
                assert(before.0.cells[at] == store.cells[at]);
            }
        }
    }
}

/// Unification keeps the marks: what it binds is on the trail above every
/// mark.
pub proof fn lemma_unify_keeps_marked(
    store: Store,
    a: int,
    b: int,
    depth: nat,
    trail_limit: nat,
    floor: int,
    base: int,
    trail_top: int,
)
    requires
        store.sound(floor),
        floor <= a < store.cells.len(),
        floor <= b < store.cells.len(),
        store.marked(base, trail_top),
        trail_limit <= usize::MAX,
    ensures
        unify_terms(store, a, b, depth, trail_limit).0.marked(base, trail_top),
    decreases depth, 0nat, 0nat,
{
    let cells = store.cells;
    lemma_resolve_succeeds(cells, a);
    lemma_resolve_succeeds(cells, b);
    lemma_resolve_ends(cells, a, cells.len());
    lemma_resolve_ends(cells, b, cells.len());
    lemma_resolve_stays_above(cells, a, cells.len(), floor);
    lemma_resolve_stays_above(cells, b, cells.len(), floor);
    let x = resolve(cells, a, cells.len())->0;
    let y = resolve(cells, b, cells.len())->0;
    assert(cell_formed(cells, x));
    assert(cell_formed(cells, y));
    if x == y {
    } else if cells[x].tag == HeapTag::Variable && cells[y].tag == HeapTag::Variable {
        if x > y {
            lemma_bind_keeps_marked(store, x, y, base, trail_top);
        } else {
            lemma_bind_keeps_marked(store, y, x, base, trail_top);
        }
    } else if cells[x].tag == HeapTag::Variable {
        lemma_bind_keeps_marked(store, x, y, base, trail_top);
    } else if cells[y].tag == HeapTag::Variable {
        lemma_bind_keeps_marked(store, y, x, base, trail_top);
    } else if cells[x].tag == HeapTag::Arity && cells[y].tag == HeapTag::Arity {
        if block_width(cells, x) > 1 && depth > 0 && block_width(cells, x) == block_width(
            cells,
            y,
        ) {
            lemma_arguments_keep_marked(
                store,
                x + 2,
                y + 2,
                (block_width(cells, x) - 1) as nat,
                (depth - 1) as nat,
                trail_limit,
                floor,
                base,
                trail_top,
            );
        }
    }
}

/// Unification of arguments keeps the marks.
pub proof fn lemma_arguments_keep_marked(
    store: Store,
    a: int,
    b: int,
    count: nat,
    depth: nat,
    trail_limit: nat,
    floor: int,
    base: int,
    trail_top: int,
)
    requires
        store.sound(floor),
        floor <= a,
        floor <= b,
        a + count <= store.cells.len(),
        b + count <= store.cells.len(),
        store.marked(base, trail_top),
        trail_limit <= usize::MAX,
    ensures
        unify_arguments(store, a, b, count, depth, trail_limit).0.marked(base, trail_top),
    decreases depth, 1nat, count,
{
    if count > 0 {
        let before = unify_arguments(store, a, b, (count - 1) as nat, depth, trail_limit);
        lemma_arguments_keep_sound(store, a, b, (count - 1) as nat, depth, trail_limit, floor);
        lemma_arguments_keep_marked(
            store,
            a,
            b,
            (count - 1) as nat,
            depth,
            trail_limit,
            floor,
            base,
            trail_top,
        );
        if before.1 == Ok::<bool, EngineError>(true) {
            lemma_unify_keeps_marked(
                before.0,
                a + count - 1,
                b + count - 1,
                depth,
                trail_limit,
                floor,
                base,
                trail_top,
            );
        }
    }
}

/// Taking bindings back keeps the store sound and its blocks in place.
pub proof fn lemma_unwind_keeps_sound(store: Store, floor: int, mark: int)
    requires
        store.sound(floor),
        0 <= mark,
    ensures
        store.unwind(mark).sound(floor),
        same_blocks(store.cells, store.unwind(mark).cells),
        same_below(store.cells, store.unwind(mark).cells, floor),
        store.unwind(mark).trail.len() == if mark <= store.trail.len() {
            mark
        } else {
            store.trail.len() as int
        },
{
    let cells = store.cells;
    let after = store.unwind(mark);
    store.lemma_unwind_shape(mark);
    assert forall|at: int| 0 <= at < cells.len() implies #[trigger] after.cells[at] == cells[at]
        || (after.cells[at] == cell(HeapTag::Variable, at) && is_pointer(cells[at]) && floor
        <= at) by {
        if exists|j: int| mark <= j < store.trail.len() && store.trail[j] == at {
            let j = choose|j: int| mark <= j < store.trail.len() && store.trail[j] == at;
            assert(after.cells[store.trail[j] as int] == cell(
                HeapTag::Variable,
                store.trail[j] as int,
            ));
            assert(is_pointer(cells[store.trail[j] as int]));
        }
    }
    assert(same_blocks(cells, after.cells)) by {
        assert forall|at: int| 0 <= at < cells.len() implies ((#[trigger] cells[at]).tag
            == HeapTag::Arity <==> after.cells[at].tag == HeapTag::Arity) by {
            assert(after.cells[at] == cells[at] || after.cells[at] == cell(HeapTag::Variable, at));
        }
        assert forall|at: int|
            0 <= at < cells.len() && (#[trigger] cells[at]).tag
                == HeapTag::Arity implies after.cells[at] == cells[at] by {
            assert(after.cells[at] == cells[at] || is_pointer(cells[at]));
        }
    }
    assert forall|at: int| 0 <= at < after.cells.len() implies #[trigger] cell_formed(
        after.cells,
        at,
    ) by {
        assert(cell_formed(cells, at));
        assert(after.cells[at] == cells[at] || after.cells[at] == cell(HeapTag::Variable, at));
        if after.cells[at] == cells[at] {
            if cells[at].tag == HeapTag::Reference {
                lemma_same_blocks_at(cells, after.cells, cells[at].data as int);
            } else if cells[at].tag == HeapTag::Arity {
                lemma_same_blocks_at(cells, after.cells, at);
            } else if cells[at].tag == HeapTag::Unify {
                let target = cells[at].data as int;
                assert(cells[target].tag != HeapTag::Arity);
            }
        }
    }
    assert forall|at: int| 0 <= at < after.cells.len() implies (#[trigger] after.cells[at]).tag
        != HeapTag::Uninitialized by {
        assert(cells[at].tag != HeapTag::Uninitialized);
        assert(after.cells[at] == cells[at] || after.cells[at] == cell(HeapTag::Variable, at));
    }
    assert forall|at: int| 0 <= at < after.cells.len() implies #[trigger] chain_ends(
        after.cells,
        at,
    ) by {
        assert(chain_ends(cells, at));
        assert(after.cells[at] == cells[at] || after.cells[at] == cell(HeapTag::Variable, at));
        if after.cells[at].tag == HeapTag::Unify {
            let next = cells[at].data as int;
            assert(after.cells[next] == cells[next] || after.cells[next] == cell(
                HeapTag::Variable,
                next,
            ));
            if after.cells[next].tag == HeapTag::Unify && cells[next].data >= next {
                let last = cells[next].data as int;
                assert(after.cells[last] == cells[last] || is_pointer(cells[last]));
            }
        }
    }
    if cells.len() > 0 {
        assert(after.cells[0] == cells[0] || is_pointer(cells[0]));
    }
    assert forall|at: int|
        floor <= at < after.cells.len() && is_pointer(#[trigger] after.cells[at]) implies floor
        <= after.cells[at].data by {
        assert(after.cells[at] == cells[at] || after.cells[at] == cell(HeapTag::Variable, at));
        if after.cells[at] == cells[at] {
            assert(is_pointer(cells[at]));
        }
    }
    assert forall|j: int| 0 <= j < after.trail.len() implies floor <= (#[trigger] after.trail[j])
        < after.cells.len() && is_pointer(after.cells[after.trail[j] as int]) by {
        assert(after.trail[j] == store.trail[j]);
        let at = store.trail[j] as int;
        assert(is_pointer(cells[at]));
        assert(after.cells[at] == cells[at] || after.cells[at] == cell(HeapTag::Variable, at));
    }
}

/// Taking bindings back to a mark keeps every mark at or below it.
pub proof fn lemma_unwind_keeps_marked(
    store: Store,
    floor: int,
    mark: int,
    base: int,
    trail_top: int,
)
    requires
        store.sound(floor),
        store.marked(base, trail_top),
        trail_top <= mark,
    ensures
        store.unwind(mark).marked(base, trail_top),
{
    let cells = store.cells;
    let after = store.unwind(mark);
    store.lemma_unwind_shape(mark);
    lemma_unwind_keeps_sound(store, floor, mark);
    assert forall|at: int| 0 <= at < base implies #[trigger] ends_below(after.cells, at, base) by {
        assert(ends_below(cells, at, base));
        if cells[at].tag == HeapTag::Arity {
            lemma_same_blocks_at(cells, after.cells, at);
        }
    }
    assert forall|at: int| 0 <= at < base implies #[trigger] points_below_or_trailed(
        after.cells,
        after.trail,
        at,
        base,
        trail_top,
    ) by {
        assert(points_below_or_trailed(cells, store.trail, at, base, trail_top));
        if exists|j: int| mark <= j < store.trail.len() && store.trail[j] == at {
            let j = choose|j: int| mark <= j < store.trail.len() && store.trail[j] == at;
            assert(after.cells[store.trail[j] as int] == cell(
                HeapTag::Variable,
                store.trail[j] as int,
            ));
        } else {
            assert(after.cells[at] == cells[at]);
            if is_pointer(cells[at]) && cells[at].data >= base {
                let j = choose|j: int|
                    trail_top <= j < store.trail.len() && #[trigger] store.trail[j] == at;
                assert(j < mark);
                assert(after.trail[j] == at);
            }
        }
    }
    assert forall|j: int| 0 <= j < trail_top implies (#[trigger] after.trail[j]) < base by {
        assert(after.trail[j] == store.trail[j]);
    }
}

/// A block that ends at `base` or below is the same block in the heap cut
/// back to `base`, if no block lies across `base`.
pub proof fn lemma_cut_keeps_block(cells: Seq<HeapEntry>, base: int, start: int)
    requires
        0 <= start < base <= cells.len(),
        base < cells.len() ==> cells[base].tag == HeapTag::Arity,
        block_fits(cells, start),
        start + 1 + block_width(cells, start) <= base,
    ensures
        block_fits(cells.take(base), start),
        block_width(cells.take(base), start) == block_width(cells, start),
        slots_follow(cells, start) ==> slots_follow(cells.take(base), start),
{
    let cut = cells.take(base);
    assert(cut[start] == cells[start]);
    if start + 2 < base {
        assert(cut[start + 2] == cells[start + 2]);
    }
    if slots_follow(cells, start) {
        assert forall|j: int| start < j <= start + block_width(cut, start) implies (
        #[trigger] cut[j]).tag != HeapTag::Arity by {
            assert(cut[j] == cells[j]);
            assert(cells[j].tag != HeapTag::Arity);
        }
    }
}

/// Cutting the heap back to a mark to which the trail has been unwound
/// keeps the store sound.
pub proof fn lemma_truncate_keeps_sound(store: Store, floor: int, base: int)
    requires
        store.sound(floor),
        store.marked(base, store.trail.len() as int),
        floor <= base,
    ensures
        store.truncate(base).sound(floor),
        store.truncate(base).cells.len() == base,
        store.truncate(base).trail == store.trail,
{
    let cells = store.cells;
    let cut = cells.take(base);
    assert(store.truncate(base).cells == cut);
    assert forall|at: int| 0 <= at < base && is_pointer(#[trigger] cells[at]) implies cells[at].data
        < base by {
        assert(points_below_or_trailed(cells, store.trail, at, base, store.trail.len() as int));
    }
    assert forall|at: int| 0 <= at < cut.len() implies #[trigger] cell_formed(cut, at) by {
        assert(cell_formed(cells, at));
        assert(cut[at] == cells[at]);
        assert(is_pointer(cells[at]) ==> cells[at].data < base);
        if cells[at].tag == HeapTag::Reference {
            let target = cells[at].data as int;
            assert(ends_below(cells, target, base));
            lemma_cut_keeps_block(cells, base, target);
        } else if cells[at].tag == HeapTag::Arity {
            assert(ends_below(cells, at, base));
            lemma_cut_keeps_block(cells, base, at);
        } else if cells[at].tag == HeapTag::Unify {
            assert(cut[cells[at].data as int] == cells[cells[at].data as int]);
        }
    }
    assert forall|at: int| 0 <= at < cut.len() implies (#[trigger] cut[at]).tag
        != HeapTag::Uninitialized by {
        assert(cells[at].tag != HeapTag::Uninitialized);
    }
    assert forall|at: int| 0 <= at < cut.len() implies #[trigger] chain_ends(cut, at) by {
        assert(chain_ends(cells, at));
        assert(cut[at] == cells[at]);
        if cells[at].tag == HeapTag::Unify {
            assert(is_pointer(cells[at]));
            let next = cells[at].data as int;
            assert(cut[next] == cells[next]);
            if cells[next].tag == HeapTag::Unify {
                assert(is_pointer(cells[next]));
                assert(cut[cells[next].data as int] == cells[cells[next].data as int]);
            }
        }
    }
    assert forall|at: int| floor <= at < cut.len() && is_pointer(#[trigger] cut[at]) implies floor
        <= cut[at].data by {
        assert(is_pointer(cells[at]));
    }
    assert forall|j: int| 0 <= j < store.trail.len() implies floor <= (#[trigger] store.trail[j])
        < cut.len() && is_pointer(cut[store.trail[j] as int]) by {
        assert(is_pointer(cells[store.trail[j] as int]));
    }
}

/// Cutting the heap back to a mark keeps every mark at or below it.
pub proof fn lemma_truncate_keeps_marked(store: Store, cut_at: int, base: int, trail_top: int)
    requires
        store.marked(base, trail_top),
        base <= cut_at <= store.cells.len(),
        cut_at < store.cells.len() ==> store.cells[cut_at].tag == HeapTag::Arity,
    ensures
        store.truncate(cut_at).marked(base, trail_top),
{
    let cells = store.cells;
    let cut = cells.take(cut_at);
    assert(store.truncate(cut_at).cells == cut);
    assert forall|at: int| 0 <= at < base implies #[trigger] ends_below(cut, at, base) by {
        assert(ends_below(cells, at, base));
        assert(cut[at] == cells[at]);
        if at + 2 < cut_at {
            assert(cut[at + 2] == cells[at + 2]);
        }
    }
    assert forall|at: int| 0 <= at < base implies #[trigger] points_below_or_trailed(
        cut,
        store.trail,
        at,
        base,
        trail_top,
    ) by {
        assert(points_below_or_trailed(cells, store.trail, at, base, trail_top));
        assert(cut[at] == cells[at]);
    }
    if base < cut_at {
        assert(cut[base] == cells[base]);
    }
}

/// Putting heap and trail back to marks keeps the store sound: the heap is
/// then as long as the one mark says and the trail as long as the other.
pub proof fn lemma_restore_keeps_sound(store: Store, floor: int, base: int, trail_top: int)
    requires
        store.sound(floor),
        store.marked(base, trail_top),
        floor <= base,
    ensures
        store.restore(base, trail_top).sound(floor),
        store.restore(base, trail_top).marked(base, trail_top),
        store.restore(base, trail_top).cells.len() == base,
        store.restore(base, trail_top).trail.len() == trail_top,
        same_below(store.cells, store.restore(base, trail_top).cells, floor),
        blocks_kept(store.cells, store.restore(base, trail_top).cells, base),
{
    let unwound = store.unwind(trail_top);
    assert forall|start: int| 0 <= start < base implies #[trigger] block_kept(
        store.cells,
        store.restore(base, trail_top).cells,
        start,
        base,
    ) by {
        lemma_unwind_keeps_sound(store, floor, trail_top);
        lemma_unwind_keeps_marked(store, floor, trail_top, base, trail_top);
        if block_fits(store.cells, start) && start + 1 + block_width(store.cells, start) <= base {
            lemma_same_blocks_at(store.cells, unwound.cells, start);
            lemma_cut_keeps_block(unwound.cells, base, start);
        }
    }
    lemma_unwind_keeps_sound(store, floor, trail_top);
    lemma_unwind_keeps_marked(store, floor, trail_top, base, trail_top);
    lemma_truncate_keeps_sound(unwound, floor, base);
    lemma_truncate_keeps_marked(unwound, base, base, trail_top);
}

/// Putting heap and trail back to marks keeps every mark at or below
/// them.
pub proof fn lemma_restore_keeps_marked(
    store: Store,
    floor: int,
    base: int,
    trail_top: int,
    lower_base: int,
    lower_top: int,
)
    requires
        store.sound(floor),
        store.marked(base, trail_top),
        store.marked(lower_base, lower_top),
        lower_base <= base,
        lower_top <= trail_top,
    ensures
        store.restore(base, trail_top).marked(lower_base, lower_top),
{
    let unwound = store.unwind(trail_top);
    lemma_unwind_keeps_sound(store, floor, trail_top);
    lemma_unwind_keeps_marked(store, floor, trail_top, base, trail_top);
    lemma_unwind_keeps_marked(store, floor, trail_top, lower_base, lower_top);
    lemma_truncate_keeps_marked(unwound, base, lower_base, lower_top);
}

/// Heaps with their blocks in the same places as a third have them in the
/// same places as each other.
pub proof fn lemma_same_blocks_chain(
    cells: Seq<HeapEntry>,
    middle: Seq<HeapEntry>,
    other: Seq<HeapEntry>,
)
    requires
        same_blocks(cells, middle),
        same_blocks(middle, other),
    ensures
        same_blocks(cells, other),
{
    assert forall|at: int| 0 <= at < cells.len() implies ((#[trigger] cells[at]).tag
        == HeapTag::Arity <==> other[at].tag == HeapTag::Arity) by {
        assert((middle[at].tag == HeapTag::Arity) == (other[at].tag == HeapTag::Arity));
    }
    assert forall|at: int|
        0 <= at < cells.len() && (#[trigger] cells[at]).tag == HeapTag::Arity implies other[at]
        == cells[at] by {
        assert(middle[at] == cells[at]);
        assert(other[at] == middle[at]);
    }
}

} // verus!
