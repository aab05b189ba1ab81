//! Leaving out the clauses that are not worth trying loses no answer: a
//! clause that is left out would not have unified with the goal.

use vstd::prelude::*;
use crate::block::{block_width, follow, settled, subterm, subterms};
use crate::compiler::SpineRecord;
use crate::error::EngineError;
use crate::heap::{HeapEntry, HeapTag};
use crate::laws::backtracking::{lemma_step_keeps_snapshots, snapshot};
use crate::laws::layout_shape::alias_leads_to_variable;
use crate::laws::search_laws::{lemma_candidates_are_the_matches, lemma_step_makes_progress};
use crate::laws::search_soundness::{
    clause_ready, clause_stored, copy_of, goal_ready, lemma_block_ends_before, lemma_copied_block,
    lemma_copied_is_sound, lemma_renamed_is_copied, lemma_step_keeps_sound, lemma_tried_is_sound,
    spine_ready, tried,
};
use crate::laws::shape::{cell_formed, formed, grown, is_pointer, lemma_grown_keeps_block};
use crate::laws::soundness::{
    lemma_arguments_keep_sound, lemma_followed_is_formed, lemma_resolve_succeeds, same_below,
};
use crate::laws::unify_laws::lemma_resolve_ends;
use crate::laws::unify_soundness::{
    bindable, kept_by_binding, lemma_arguments_keep, lemma_resolve_after_bind,
    lemma_resolve_is_settled,
};
use crate::layout::{cell, ClauseRecord};
use crate::search::{candidates, compatible, is_ground, Limits, may_match, renamed, Search};
use crate::store::{resolve, Store};
use crate::unify::{one_hop, same_functor, unify_arguments, unify_terms};

verus! {

/// Whether the descriptor holds the subterms of the head as they stand on
/// the heap, and its first term is the head.
pub open spec fn clause_indexed(cells: Seq<HeapEntry>, record: ClauseRecord) -> bool {
    &&& record.head_subterms == subterms(cells, cell(HeapTag::Reference, record.base as int))
    &&& record.terms.len() > 0
    &&& record.terms[0].data == record.base
}

/// Whether the cell at `at` resolves to a cell that holds `entry`.
pub open spec fn resolves_to(cells: Seq<HeapEntry>, at: int, entry: HeapEntry) -> bool {
    resolve(cells, at, cells.len()) is Some && cells[resolve(cells, at, cells.len())->0] == entry
}

/// If following the variables from an entry leads to a ground entry, the
/// cell that the entry names resolves to a cell that holds the ground entry.
pub proof fn lemma_follow_to_ground(store: Store, pointer: HeapEntry, hops: nat, floor: int)
    requires
        store.sound(floor),
        pointer.tag == HeapTag::Unify,
        pointer.data < store.cells.len(),
        is_ground(follow(store.cells, pointer, hops)),
    ensures
        resolves_to(store.cells, pointer.data as int, follow(store.cells, pointer, hops)),
    decreases hops,
{
    let cells = store.cells;
    let next = cells[pointer.data as int];
    let at = pointer.data as int;
    lemma_resolve_succeeds(cells, at);
    assert(cell_formed(cells, at));
    if hops == 0 || settled(cells, pointer) {
    } else if next.tag == HeapTag::Unify {
        lemma_follow_to_ground(store, next, (hops - 1) as nat, floor);
        lemma_resolve_succeeds(cells, next.data as int);
        lemma_resolve_is_settled(
            cells,
            next.data as int,
            cells.len(),
            (cells.len() - 1) as nat,
        );
    } else {
        assert(follow(cells, pointer, hops) == follow(cells, next, (hops - 1) as nat));
        if next.tag == HeapTag::Variable {
            assert(settled(cells, next));
        }
    }
}

/// If the subterm of a cell is ground, the cell resolves to a cell that
/// holds the subterm.
pub proof fn lemma_ground_subterm_resolves(store: Store, slot: int, floor: int)
    requires
        store.sound(floor),
        0 <= slot < store.cells.len(),
        store.cells[slot].tag != HeapTag::Arity,
        is_ground(subterm(store.cells, slot)),
    ensures
        resolves_to(store.cells, slot, subterm(store.cells, slot)),
{
    let cells = store.cells;
    let entry = cells[slot];
    let followed = follow(cells, entry, cells.len());
    assert(cell_formed(cells, slot));
    lemma_resolve_succeeds(cells, slot);
    if followed.tag == HeapTag::Reference && followed.data < cells.len() {
        // A reference leads to a block, and no block is ground.
        lemma_followed_is_formed(store, entry, cells.len(), slot, floor);
    } else if entry.tag == HeapTag::Unify {
        if cells.len() > 0 && !settled(cells, entry) {
            lemma_follow_to_ground(store, entry, cells.len(), floor);
            lemma_resolve_succeeds(cells, entry.data as int);
            lemma_resolve_is_settled(
                cells,
                entry.data as int,
                cells.len(),
                (cells.len() - 1) as nat,
            );
        }
    }
}

/// In a clause as the compiler left it, a subterm of the head that is
/// ground stands in the head itself.
pub proof fn lemma_ground_head_subterm(cells: Seq<HeapEntry>, record: ClauseRecord, slot: int)
    requires
        formed(cells),
        clause_ready(cells, record),
        record.base <= slot < record.base + record.length,
        is_ground(subterm(cells, slot)),
    ensures
        cells[slot] == subterm(cells, slot),
{
    let entry = cells[slot];
    assert(alias_leads_to_variable(cells, slot));
    assert(cell_formed(cells, slot));
    if entry.tag == HeapTag::Variable {
        assert(settled(cells, entry));
    } else if entry.tag == HeapTag::Unify {
        let next = cells[entry.data as int];
        assert(settled(cells, next));
        if !settled(cells, entry) {
            assert(follow(cells, entry, cells.len()) == follow(
                cells,
                next,
                (cells.len() - 1) as nat,
            ));
        }
    }
}

/// Where a walk ends in a heap, it ends in the grown heap.
pub proof fn lemma_resolve_in_grown(
    cells: Seq<HeapEntry>,
    longer: Seq<HeapEntry>,
    at: int,
    hops: nat,
)
    requires
        grown(cells, longer),
        resolve(cells, at, hops) is Some,
    ensures
        resolve(longer, at, hops) == resolve(cells, at, hops),
    decreases hops,
{
    assert(longer[at] == cells[at]);
    if cells[at].tag == HeapTag::Unify || cells[at].tag == HeapTag::Reference {
        lemma_resolve_in_grown(cells, longer, cells[at].data as int, (hops - 1) as nat);
    }
}

/// Every binding keeps that a cell resolves to a cell that holds a ground
/// entry, and that a cell holds a ground entry.
pub proof fn lemma_kept_by_binding_ground(
    floor: int,
    a: int,
    first: HeapEntry,
    b: int,
    second: HeapEntry,
    length: int,
)
    requires
        0 <= a < length,
        0 <= b < length,
        is_ground(first),
        is_ground(second),
    ensures
        kept_by_binding(
            |c: Seq<HeapEntry>| c.len() == length && resolves_to(c, a, first) && c[b] == second,
            floor,
        ),
{
    let kept = |c: Seq<HeapEntry>| c.len() == length && resolves_to(c, a, first) && c[b] == second;
    assert forall|store: Store, variable: int, target: int|
        bindable(store, variable, target, floor) && kept(store.cells) implies #[trigger] kept(
        store.bind(variable, target).cells,
    ) by {
        lemma_resolve_after_bind(store, variable, target, a, floor);
        lemma_resolve_ends(store.cells, a, store.cells.len());
    }
}

/// Two ground cells that differ do not unify.
pub proof fn lemma_ground_cells_differ(
    store: Store,
    a: int,
    first: HeapEntry,
    b: int,
    second: HeapEntry,
    depth: nat,
    trail_limit: nat,
    floor: int,
)
    requires
        store.sound(floor),
        0 <= a < store.cells.len(),
        0 <= b < store.cells.len(),
        resolves_to(store.cells, a, first),
        store.cells[b] == second,
        is_ground(first),
        is_ground(second),
        first != second,
    ensures
        unify_terms(store, a, b, depth, trail_limit).1 == Ok::<bool, EngineError>(false),
{
    let cells = store.cells;
    lemma_resolve_succeeds(cells, b);
    assert(resolve(cells, b, cells.len()) == Some(b));
}

/// If one pair of arguments are ground cells that differ, the arguments do
/// not unify.
pub proof fn lemma_mismatch_stops(
    store: Store,
    a: int,
    b: int,
    count: nat,
    at: int,
    first: HeapEntry,
    second: HeapEntry,
    depth: nat,
    trail_limit: nat,
    floor: int,
)
    requires
        store.sound(floor),
        floor <= a,
        floor <= b,
        a + count <= store.cells.len(),
        b + count <= store.cells.len(),
        trail_limit <= usize::MAX,
        0 <= at < count,
        resolves_to(store.cells, a + at, first),
        store.cells[b + at] == second,
        is_ground(first),
        is_ground(second),
        first != second,
    ensures
        unify_arguments(store, a, b, count, depth, trail_limit).1 != Ok::<bool, EngineError>(
            true,
        ),
    decreases count,
{
    let before = unify_arguments(store, a, b, (count - 1) as nat, depth, trail_limit);
    if count - 1 > at {
        lemma_mismatch_stops(
            store,
            a,
            b,
            (count - 1) as nat,
            at,
            first,
            second,
            depth,
            trail_limit,
            floor,
        );
    } else if before.1 == Ok::<bool, EngineError>(true) {
        lemma_arguments_keep_sound(store, a, b, (count - 1) as nat, depth, trail_limit, floor);
        lemma_kept_by_binding_ground(
            floor,
            a + at,
            first,
            b + at,
            second,
            store.cells.len() as int,
        );
        lemma_arguments_keep(
            store,
            a,
            b,
            (count - 1) as nat,
            depth,
            trail_limit,
            floor,
            |c: Seq<HeapEntry>|
                c.len() == store.cells.len() && resolves_to(c, a + at, first) && c[b + at]
                    == second,
        );
        lemma_ground_cells_differ(
            before.0,
            a + at,
            first,
            b + at,
            second,
            depth,
            trail_limit,
            floor,
        );
    }
}

/// If the functor of a goal, one step on, is a ground entry, that entry is
/// the subterm of the functor cell.
pub proof fn lemma_ground_functor_is_subterm(store: Store, at: int, floor: int)
    requires
        store.sound(floor),
        0 <= at < store.cells.len(),
        is_ground(one_hop(store.cells, store.cells[at])),
    ensures
        subterm(store.cells, at) == one_hop(store.cells, store.cells[at]),
{
    let cells = store.cells;
    let entry = cells[at];
    assert(cell_formed(cells, at));
    if entry.is_var_or_unify() {
        let next = cells[entry.data as int];
        assert(!settled(cells, entry));
        assert(follow(cells, entry, cells.len()) == follow(cells, next, (cells.len() - 1) as nat));
    }
}

/// A clause that is not worth trying on a goal does not unify with it: the
/// head of a fresh copy of the clause and the goal do not unify.
pub proof fn lemma_unmatched_clause_does_not_unify(
    store: Store,
    record: ClauseRecord,
    goal: HeapEntry,
    heap_limit: int,
    depth: nat,
    trail_limit: nat,
    floor: int,
)
    requires
        store.sound(floor),
        clause_ready(store.cells, record),
        clause_indexed(store.cells, record),
        record.base + record.length <= floor <= store.cells.len(),
        goal_ready(store.cells, goal, floor, store.cells.len() as int),
        heap_limit <= usize::MAX,
        trail_limit <= usize::MAX,
        renamed(store.cells, record, heap_limit) is Ok,
        !may_match(store.cells, record, goal),
    ensures
        unify_terms(
            Store { cells: renamed(store.cells, record, heap_limit)->Ok_0, trail: store.trail },
            goal.data as int,
            store.cells.len() as int,
            depth,
            trail_limit,
        ).1 != Ok::<bool, EngineError>(true),
{
    let lower = store.cells;
    let base = record.base as int;
    let to = lower.len() as int;
    let at = goal.data as int;
    lemma_renamed_is_copied(lower, record, heap_limit);
    let cells = renamed(lower, record, heap_limit)->Ok_0;
    let fresh = Store { cells, trail: store.trail };
    lemma_copied_is_sound(store, cells, record, floor);
    lemma_copied_block(lower, cells, record, 0);
    lemma_grown_keeps_block(lower, cells, at);
    assert(copy_of(lower, cells, base, record.length as int, 0));
    assert(cells[at] == lower[at]);
    assert(resolve(cells, at, cells.len()) == Some(at));
    assert(resolve(cells, to, cells.len()) == Some(to));
    let wanted = subterms(lower, goal);
    let held = record.head_subterms;
    assert(cell_formed(lower, at));
    assert(cell_formed(lower, base));
    assert(cells[at + 1] == lower[at + 1]);
    assert(copy_of(lower, cells, base, record.length as int, 1));
    assert(one_hop(lower, lower[at + 1]) == one_hop(cells, cells[at + 1])) by {
        if lower[at + 1].is_var_or_unify() {
            assert(cell_formed(lower, at + 1));
            assert(cells[lower[at + 1].data as int] == lower[lower[at + 1].data as int]);
        }
    }
    if lower[base].data != lower[at].data {
    } else if !compatible(lower[base + 1], subterm(lower, at + 1)) {
        // The functors are symbols that differ.
        if same_functor(cells, at + 1, to + 1) {
            assert(cells[to + 1] == lower[base + 1]);
            assert(one_hop(cells, cells[to + 1]) == lower[base + 1]);
            lemma_ground_functor_is_subterm(store, at + 1, floor);
        }
    } else if block_width(lower, at) == block_width(lower, base) && block_width(lower, at) > 1 {
        // Both are compound terms, and two arguments are symbols that differ.
        assert(held.len() == wanted.len());
        let j = choose|j: int| 0 <= j < wanted.len() && !compatible(#[trigger] held[j], wanted[j]);
        let first = wanted[j];
        let second = held[j];
        assert(first == subterm(lower, at + 2 + j));
        assert(second == subterm(lower, base + 2 + j));
        lemma_ground_head_subterm(lower, record, base + 2 + j);
        assert(copy_of(lower, cells, base, record.length as int, 2 + j));
        assert(cells[to + 2 + j] == second);
        assert(lower[at + 2 + j].tag != HeapTag::Arity);
        lemma_ground_subterm_resolves(store, at + 2 + j, floor);
        lemma_resolve_in_grown(lower, cells, at + 2 + j, lower.len());
        lemma_resolve_succeeds(cells, at + 2 + j);
        lemma_resolve_is_settled(cells, at + 2 + j, lower.len(), cells.len());
        lemma_resolve_ends(lower, at + 2 + j, lower.len());
        assert(resolves_to(cells, at + 2 + j, first));
        if depth > 0 && same_functor(cells, at + 1, to + 1) {
            lemma_mismatch_stops(
                fresh,
                at + 2,
                to + 2,
                (block_width(cells, at) - 1) as nat,
                j,
                first,
                second,
                (depth - 1) as nat,
                trail_limit,
                floor,
            );
        }
    } else if block_width(lower, at) == block_width(lower, base) {
        // Both are atoms or variables behind an `Arity` cell: the one
        // argument of each is its functor.
        assert(held.len() == wanted.len());
        let j = choose|j: int| 0 <= j < wanted.len() && !compatible(#[trigger] held[j], wanted[j]);
        assert(wanted[j] == subterm(lower, at + 1));
        assert(held[j] == subterm(lower, base + 1));
        lemma_ground_head_subterm(lower, record, base + 1);
    }
}

/// The subterms of the head stay what the descriptor holds when the heap
/// changes at and above the floor only, and a block still ends at the
/// floor.
pub proof fn lemma_indexed_kept(
    cells: Seq<HeapEntry>,
    other: Seq<HeapEntry>,
    record: ClauseRecord,
    floor: int,
)
    requires
        formed(cells),
        clause_ready(cells, record),
        clause_indexed(cells, record),
        record.base + record.length <= floor <= cells.len(),
        floor <= other.len(),
        same_below(cells, other, floor),
        floor < cells.len() ==> cells[floor].tag == HeapTag::Arity,
        floor < other.len() ==> other[floor].tag == HeapTag::Arity,
    ensures
        clause_indexed(other, record),
{
    let base = record.base as int;
    let end = record.base + record.length;
    let reference = cell(HeapTag::Reference, base);
    lemma_block_ends_before(cells, base, end);
    assert(other[base] == cells[base]);
    if base + 2 < floor {
        assert(other[base + 2] == cells[base + 2]);
    }
    assert(block_width(other, base) == block_width(cells, base));
    assert forall|slot: int|
        base + 1 <= slot < base + 1 + block_width(cells, base) implies #[trigger] subterm(
        other,
        slot,
    ) == subterm(cells, slot) by {
        let entry = cells[slot];
        assert(other[slot] == entry);
        assert(cell_formed(cells, slot));
        assert(alias_leads_to_variable(cells, slot));
        if entry.tag == HeapTag::Unify {
            let next = cells[entry.data as int];
            assert(other[entry.data as int] == next);
            assert(settled(cells, next));
            assert(settled(other, next));
            assert(follow(cells, entry, cells.len()) == follow(
                cells,
                next,
                (cells.len() - 1) as nat,
            ));
            assert(follow(other, entry, other.len()) == follow(
                other,
                next,
                (other.len() - 1) as nat,
            ));
        } else if entry.tag == HeapTag::Variable {
            assert(settled(cells, entry));
            assert(settled(other, entry));
        } else if entry.tag == HeapTag::Reference {
            assert(is_pointer(entry));
            assert(other[entry.data as int] == cells[entry.data as int]);
        }
    }
    assert(subterms(other, reference) =~= subterms(cells, reference));
}

/// Whether the clause with number `c` is none of those that the spine has
/// to try.
pub open spec fn left_out(spine: SpineRecord, c: int) -> bool {
    forall|i: int| 0 <= i < spine.unifiable_clauses.len() ==> #[trigger] spine.unifiable_clauses[i]
        != c
}

/// Whether every clause that the spine leaves out is one not worth trying
/// on its first goal, in the store that the spine goes back to.
pub open spec fn spine_complete(
    cells: Seq<HeapEntry>,
    spine: SpineRecord,
    clauses: Seq<ClauseRecord>,
) -> bool {
    spine.goals.len() > 0 ==> forall|c: int|
        0 <= c < clauses.len() && #[trigger] left_out(spine, c) ==> !may_match(
            cells,
            clauses[c],
            spine.goals[0],
        )
}

/// Whether the search leaves out no clause that is worth trying: the
/// descriptors hold the subterms of the heads as they stand on the heap, and
/// every spine leaves out only clauses not worth trying on its first goal.
pub open spec fn complete(state: Search, clauses: Seq<ClauseRecord>) -> bool {
    &&& forall|k: int|
        0 <= k < clauses.len() ==> clause_indexed(state.store.cells, #[trigger] clauses[k])
    &&& forall|s: int|
        0 <= s < state.spines.len() ==> spine_complete(
            snapshot(state, state.spines[s]).cells,
            #[trigger] state.spines[s],
            clauses,
        )
}

/// Every step of a sound search that leaves out no clause worth trying
/// leaves the search so.
pub proof fn lemma_step_keeps_complete(
    state: Search,
    clauses: Seq<ClauseRecord>,
    limits: Limits,
    floor: int,
)
    requires
        state.sound(clauses, floor),
        complete(state, clauses),
    ensures
        complete(state.step(clauses, limits).0, clauses),
{
    let after = state.step(clauses, limits).0;
    lemma_step_keeps_sound(state, clauses, limits, floor);
    lemma_step_keeps_snapshots(state, clauses, limits, floor);
    lemma_step_makes_progress(state, clauses, limits);
    assert forall|k: int| 0 <= k < clauses.len() implies clause_indexed(
        after.store.cells,
        #[trigger] clauses[k],
    ) by {
        assert(clause_stored(state.store.cells, clauses[k], floor));
        lemma_indexed_kept(state.store.cells, after.store.cells, clauses[k], floor);
    }
    assert forall|s: int| 0 <= s < after.spines.len() implies spine_complete(
        snapshot(after, after.spines[s]).cells,
        #[trigger] after.spines[s],
        clauses,
    ) by {
        if s < state.spines.len() {
            let spine = state.spines[s];
            let kept = after.spines[s];
            assert(spine_complete(snapshot(state, state.spines[s]).cells, spine, clauses));
            assert(kept.goals == spine.goals);
            assert(kept.unifiable_clauses == spine.unifiable_clauses);
            assert(snapshot(after, after.spines[s]) == snapshot(state, state.spines[s]));
            if kept.goals.len() > 0 {
                assert forall|c: int|
                    0 <= c < clauses.len() && #[trigger] left_out(kept, c) implies !may_match(
                    snapshot(after, kept).cells,
                    clauses[c],
                    kept.goals[0],
                ) by {
                    assert(left_out(spine, c));
                }
            }
        } else {
            let made = after.spines[s];
            assert(after.spines.len() == state.spines.len() + 1);
            assert(made == after.spines.last());
            assert(snapshot(after, made) == after.store);
            assert(candidates(after.store.cells, clauses, made.goals) == Ok::<
                Seq<usize>,
                EngineError,
            >(made.unifiable_clauses));
            if made.goals.len() > 0 {
                lemma_candidates_are_the_matches(
                    after.store.cells,
                    clauses,
                    made.goals[0],
                    clauses.len(),
                );
                assert forall|c: int|
                    0 <= c < clauses.len() && #[trigger] left_out(made, c) implies !may_match(
                    after.store.cells,
                    clauses[c],
                    made.goals[0],
                ) by {
                    if may_match(after.store.cells, clauses[c], made.goals[0]) {
                        assert(made.unifiable_clauses.contains(c as usize));
                        let i = choose|i: int|
                            0 <= i < made.unifiable_clauses.len() && made.unifiable_clauses[i]
                                == c as usize;
                        assert(made.unifiable_clauses[i] != c);
                    }
                }
            }
        }
    }
}

/// No clause that the search leaves out would have unified: in a sound
/// search that leaves out no clause worth trying, the head of a fresh copy
/// of a clause that the spine on top does not have to try does not unify
/// with the first goal of that spine.
pub proof fn lemma_left_out_clause_does_not_unify(
    state: Search,
    clauses: Seq<ClauseRecord>,
    limits: Limits,
    floor: int,
    c: int,
)
    requires
        state.sound(clauses, floor),
        complete(state, clauses),
        state.spines.len() > 0,
        state.spines.last().goals.len() > 0,
        state.spines.last().num_unified_clauses < state.spines.last().unifiable_clauses.len(),
        0 <= c < clauses.len(),
        left_out(state.spines.last(), c),
        renamed(snapshot(state, state.spines.last()).cells, clauses[c], limits.heap as int) is Ok,
    ensures
        unify_terms(
            Store {
                cells: renamed(
                    snapshot(state, state.spines.last()).cells,
                    clauses[c],
                    limits.heap as int,
                )->Ok_0,
                trail: snapshot(state, state.spines.last()).trail,
            },
            state.spines.last().goals[0].data as int,
            state.spines.last().base as int,
            renamed(
                snapshot(state, state.spines.last()).cells,
                clauses[c],
                limits.heap as int,
            )->Ok_0.len(),
            limits.trail as nat,
        ).1 != Ok::<bool, EngineError>(true),
{
    let last = state.spines.len() - 1;
    let top = state.spines[last];
    let restored = snapshot(state, top);
    lemma_tried_is_sound(state, clauses, floor);
    assert(tried(state).store == restored);
    assert(clause_stored(state.store.cells, clauses[c], floor));
    assert(clause_stored(restored.cells, clauses[c], floor));
    assert(clause_indexed(state.store.cells, clauses[c]));
    lemma_indexed_kept(state.store.cells, restored.cells, clauses[c], floor);
    assert(spine_ready(restored, tried(state).spines[last], clauses.len(), floor));
    assert(goal_ready(restored.cells, tried(state).spines[last].goals[0], floor, top.base as int));
    assert(spine_complete(snapshot(state, state.spines[last]).cells, top, clauses));
    lemma_unmatched_clause_does_not_unify(
        restored,
        clauses[c],
        top.goals[0],
        limits.heap as int,
        renamed(restored.cells, clauses[c], limits.heap as int)->Ok_0.len(),
        limits.trail as nat,
        floor,
    );
}

} // verus!
