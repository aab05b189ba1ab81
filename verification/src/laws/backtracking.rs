//! Backtracking is exact: as long as a spine is on the stack, putting heap
//! and trail back to its marks gives the store of the moment the spine was
//! made, cell for cell, whatever the search has done since.

use vstd::prelude::*;
use crate::compiler::SpineRecord;
use crate::heap::HeapTag;
use crate::laws::search_soundness::{
    clause_stored, goal_ready, lemma_copied_is_sound, lemma_copied_terms, lemma_renamed_is_copied,
    lemma_tried_is_sound, lies_below, spine_ready, tried,
};
use crate::laws::shape::grown;
use crate::laws::soundness::lemma_unify_keeps_sound;
use crate::laws::unify_laws::lemma_unify_can_be_taken_back;
use crate::layout::{cell, ClauseRecord};
use crate::search::{Limits, relocate_all, renamed, Search};
use crate::store::Store;
use crate::unify::unify_terms;

verus! {

/// Whether the two trails name the same cells at and above `mark`.
pub open spec fn same_trail_above(trail: Seq<usize>, other: Seq<usize>, mark: int) -> bool {
    &&& trail.len() == other.len()
    &&& forall|j: int| mark <= j < trail.len() ==> #[trigger] trail[j] == other[j]
}

/// Two stores that hold the same cells below `base`, and whose trails name
/// the same cells, all of them below `base`, are the same store once they
/// are put back to marks at or below `base`.
pub proof fn lemma_restore_sees_below(
    store: Store,
    other: Store,
    base: int,
    trail_top: int,
    upper: int,
)
    requires
        0 <= base <= upper,
        upper <= store.cells.len(),
        upper <= other.cells.len(),
        0 <= trail_top,
        store.trail == other.trail,
        forall|at: int| 0 <= at < upper ==> #[trigger] store.cells[at] == other.cells[at],
        forall|j: int| trail_top <= j < store.trail.len() ==> (#[trigger] store.trail[j]) < upper,
    ensures
        store.restore(base, trail_top) == other.restore(base, trail_top),
{
    let left = store.unwind(trail_top);
    let right = other.unwind(trail_top);
    store.lemma_unwind_shape(trail_top);
    other.lemma_unwind_shape(trail_top);
    assert forall|at: int| 0 <= at < upper implies #[trigger] left.cells[at]
        == right.cells[at] by {
        if exists|j: int| trail_top <= j < store.trail.len() && store.trail[j] == at {
            let j = choose|j: int| trail_top <= j < store.trail.len() && store.trail[j] == at;
            assert(left.cells[store.trail[j] as int] == cell(
                HeapTag::Variable,
                store.trail[j] as int,
            ));
            assert(right.cells[other.trail[j] as int] == cell(
                HeapTag::Variable,
                other.trail[j] as int,
            ));
        } else {
            assert(left.cells[at] == store.cells[at]);
            assert(right.cells[at] == other.cells[at]);
        }
    }
    assert(left.cells.take(base) =~= right.cells.take(base));
    assert(store.restore(base, trail_top) =~= other.restore(base, trail_top));
}

/// Putting heap and trail back to marks, and then to marks at or below
/// them, is putting them back to the lower marks at once.
pub proof fn lemma_restore_in_stages(
    store: Store,
    base: int,
    trail_top: int,
    lower_base: int,
    lower_top: int,
)
    requires
        0 <= lower_base <= base <= store.cells.len(),
        0 <= lower_top <= trail_top <= store.trail.len(),
        forall|j: int| 0 <= j < trail_top ==> (#[trigger] store.trail[j]) < base,
    ensures
        store.restore(base, trail_top).restore(lower_base, lower_top) == store.restore(
            lower_base,
            lower_top,
        ),
{
    let unwound = store.unwind(trail_top);
    let cut = unwound.truncate(base);
    store.lemma_unwind_shape(trail_top);
    store.lemma_unwind_in_stages(trail_top, lower_top);
    assert(unwound.trail =~= store.trail.take(trail_top));
    lemma_restore_sees_below(cut, unwound, lower_base, lower_top, base);
}

/// A store that has only been bound further and grown since is the same
/// store once it is put back to marks that held before.
pub proof fn lemma_restore_forgets(
    store: Store,
    later: Store,
    base: int,
    trail_top: int,
)
    requires
        0 <= base <= store.cells.len() <= later.cells.len(),
        0 <= trail_top <= store.trail.len(),
        forall|j: int| 0 <= j < store.trail.len() ==> (#[trigger] store.trail[j])
            < store.cells.len(),
        later.unwind(store.trail.len() as int).trail == store.trail,
        forall|at: int|
            0 <= at < store.cells.len() ==> #[trigger] later.unwind(
                store.trail.len() as int,
            ).cells[at] == store.cells[at],
    ensures
        later.restore(base, trail_top) == store.restore(base, trail_top),
{
    let back = later.unwind(store.trail.len() as int);
    later.lemma_unwind_in_stages(store.trail.len() as int, trail_top);
    later.lemma_unwind_shape(store.trail.len() as int);
    lemma_restore_sees_below(back, store, base, trail_top, store.cells.len() as int);
}

/// A sound store put back to where it is now is the store as it is.
pub proof fn lemma_restore_to_now(store: Store)
    ensures
        store.restore(store.cells.len() as int, store.trail.len() as int) == store,
{
    assert(store.cells.take(store.cells.len() as int) =~= store.cells);
}

/// The store a spine goes back to: heap and trail put back to its marks.
pub open spec fn snapshot(state: Search, spine: SpineRecord) -> Store {
    state.store.restore(spine.base as int, spine.trail_top as int)
}

/// Whether `later` holds every spine of `state` that it still holds with
/// the same marks, and goes back to the same store for each.
pub open spec fn keeps_snapshots(state: Search, later: Search) -> bool {
    forall|k: int|
        0 <= k < state.spines.len() && k < later.spines.len() ==> {
            &&& (#[trigger] later.spines[k]).base == state.spines[k].base
            &&& later.spines[k].trail_top == state.spines[k].trail_top
            &&& later.spines[k].goals == state.spines[k].goals
            &&& later.spines[k].unifiable_clauses == state.spines[k].unifiable_clauses
            &&& snapshot(later, later.spines[k]) == snapshot(state, state.spines[k])
        }
}

/// Every step of a sound search keeps the snapshots: each spine that stays
/// on the stack goes back to the very store it went back to before. A spine
/// that the step has made goes back to the store as the step has left it.
pub proof fn lemma_step_keeps_snapshots(
    state: Search,
    clauses: Seq<ClauseRecord>,
    limits: Limits,
    floor: int,
)
    requires
        state.sound(clauses, floor),
    ensures
        keeps_snapshots(state, state.step(clauses, limits).0),
        state.step(clauses, limits).0.spines.len() > state.spines.len() ==> snapshot(
            state.step(clauses, limits).0,
            state.step(clauses, limits).0.spines.last(),
        ) == state.step(clauses, limits).0.store,
{
    let after = state.step(clauses, limits).0;
    if state.spines.len() == 0 {
    } else {
        let last = state.spines.len() - 1;
        let top = state.spines[last];
        let base = top.base as int;
        let trail_top = top.trail_top as int;
        assert(spine_ready(state.store, state.spines[last], clauses.len(), floor));
        let restored = state.store.restore(base, trail_top);
        // Every spine goes back to the same store from the restored store.
        assert forall|k: int| 0 <= k <= last implies #[trigger] restored.restore(
            state.spines[k].base as int,
            state.spines[k].trail_top as int,
        ) == snapshot(state, state.spines[k]) by {
            assert(spine_ready(state.store, state.spines[k], clauses.len(), floor));
            if k < last {
                assert(lies_below(state.spines[k], state.spines[last]));
            }
            lemma_restore_in_stages(
                state.store,
                base,
                trail_top,
                state.spines[k].base as int,
                state.spines[k].trail_top as int,
            );
        }
        if !state.answered && top.goals.len() > 0 && top.num_unified_clauses
            < top.unifiable_clauses.len() {
            lemma_tried_is_sound(state, clauses, floor);
            let before = tried(state);
            assert(before.store == restored);
            if after.spines != before.spines {
                // A clause was copied and its head unified with the goal.
                let picked = top.unifiable_clauses[top.num_unified_clauses as int];
                let clause = clauses[picked as int];
                assert(clause_stored(restored.cells, clauses[picked as int], floor));
                lemma_renamed_is_copied(restored.cells, clause, limits.heap as int);
                let cells = renamed(restored.cells, clause, limits.heap as int)->Ok_0;
                let copied_store = Store { cells, trail: restored.trail };
                lemma_copied_is_sound(restored, cells, clause, floor);
                lemma_copied_terms(restored.cells, cells, clause);
                let terms = relocate_all(
                    clause.terms,
                    clause.terms.len(),
                    clause.base as int,
                    clause.length as int,
                    restored.cells.len() as int,
                )->0;
                assert(spine_ready(restored, before.spines[last], clauses.len(), floor));
                assert(goal_ready(
                    restored.cells,
                    before.spines[last].goals[0],
                    floor,
                    top.base as int,
                ));
                let goal = top.goals[0];
                lemma_unify_keeps_sound(
                    copied_store,
                    goal.data as int,
                    terms[0].data as int,
                    copied_store.cells.len(),
                    limits.trail as nat,
                    floor,
                );
                lemma_unify_can_be_taken_back(
                    copied_store,
                    goal.data as int,
                    terms[0].data as int,
                    copied_store.cells.len(),
                    limits.trail as nat,
                );
                let unified = unify_terms(
                    copied_store,
                    goal.data as int,
                    terms[0].data as int,
                    copied_store.cells.len(),
                    limits.trail as nat,
                ).0;
                assert(after.store == unified);
                assert forall|k: int| 0 <= k <= last implies #[trigger] unified.restore(
                    state.spines[k].base as int,
                    state.spines[k].trail_top as int,
                ) == restored.restore(
                    state.spines[k].base as int,
                    state.spines[k].trail_top as int,
                ) by {
                    assert(spine_ready(restored, before.spines[k], clauses.len(), floor));
                    lemma_restore_forgets(
                        restored,
                        unified,
                        state.spines[k].base as int,
                        state.spines[k].trail_top as int,
                    );
                }
                lemma_restore_to_now(unified);
                assert forall|k: int|
                    0 <= k < state.spines.len() && k < after.spines.len() implies {
                    &&& (#[trigger] after.spines[k]).base == state.spines[k].base
                    &&& after.spines[k].trail_top == state.spines[k].trail_top
                    &&& after.spines[k].goals == state.spines[k].goals
                    &&& after.spines[k].unifiable_clauses == state.spines[k].unifiable_clauses
                    &&& snapshot(after, after.spines[k]) == snapshot(state, state.spines[k])
                } by {
                    assert(after.spines[k] == before.spines[k]);
                    assert(unified.restore(
                        state.spines[k].base as int,
                        state.spines[k].trail_top as int,
                    ) == restored.restore(
                        state.spines[k].base as int,
                        state.spines[k].trail_top as int,
                    ));
                }
            } else {
                assert forall|k: int|
                    0 <= k < state.spines.len() && k < after.spines.len() implies {
                    &&& (#[trigger] after.spines[k]).base == state.spines[k].base
                    &&& after.spines[k].trail_top == state.spines[k].trail_top
                    &&& after.spines[k].goals == state.spines[k].goals
                    &&& after.spines[k].unifiable_clauses == state.spines[k].unifiable_clauses
                    &&& snapshot(after, after.spines[k]) == snapshot(state, state.spines[k])
                } by {
                    assert(restored.restore(
                        state.spines[k].base as int,
                        state.spines[k].trail_top as int,
                    ) == snapshot(state, state.spines[k]));
                }
            }
        } else if !state.answered && top.goals.len() == 0 {
        } else {
            assert forall|k: int| 0 <= k < state.spines.len() && k < after.spines.len() implies {
                &&& (#[trigger] after.spines[k]).base == state.spines[k].base
                &&& after.spines[k].trail_top == state.spines[k].trail_top
                &&& after.spines[k].goals == state.spines[k].goals
                &&& after.spines[k].unifiable_clauses == state.spines[k].unifiable_clauses
                &&& snapshot(after, after.spines[k]) == snapshot(state, state.spines[k])
            } by {
                assert(after.spines[k] == state.spines[k]);
                assert(restored.restore(
                    state.spines[k].base as int,
                    state.spines[k].trail_top as int,
                ) == snapshot(state, state.spines[k]));
            }
        }
    }
}

} // verus!
