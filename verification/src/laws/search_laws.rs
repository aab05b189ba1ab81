//! Why a search that is held to its bounds comes to an end.

use vstd::prelude::*;
use crate::compiler::SpineRecord;
use crate::error::EngineError;
use crate::heap::HeapEntry;
use crate::layout::ClauseRecord;
use crate::laws::unify_laws::lemma_unify_can_be_taken_back;
use crate::search::{
    candidates, candidates_among, Limits, may_match, Progress, relocate_all, renamed, Search,
};
use crate::store::Store;

verus! {

/// Whether every spine has tried no more clauses than it holds, and holds
/// no more than there are, and the heap marks of the spines do not fall
/// from one spine to the next and lie within a heap of `length` cells.
pub open spec fn spines_wf(spines: Seq<SpineRecord>, clause_count: nat, length: nat) -> bool {
    &&& clause_count <= usize::MAX
    &&& forall|k: int|
        0 <= k < spines.len() ==> (#[trigger] spines[k]).num_unified_clauses
            <= spines[k].unifiable_clauses.len() <= clause_count
    &&& forall|j: int, k: int|
        0 <= j < k < spines.len() ==> (#[trigger] spines[j]).base <= (#[trigger] spines[k]).base
    &&& spines.len() > 0 ==> spines.last().base <= length
}

/// `radix` to the power of `exponent`.
pub open spec fn scale(radix: nat, exponent: nat) -> nat
    decreases exponent,
{
    if exponent == 0 {
        1
    } else {
        radix * scale(radix, (exponent - 1) as nat)
    }
}

/// One more than the number of clauses that a spine has left to try.
pub open spec fn weight(spine: SpineRecord) -> nat {
    (spine.unifiable_clauses.len() - spine.num_unified_clauses + 1) as nat
}

/// The room that the heap had left when the spine was made, if it may
/// grow to `room` cells.
pub open spec fn room_above(spine: SpineRecord, room: nat) -> nat {
    if spine.base <= room {
        (room - spine.base) as nat
    } else {
        0
    }
}

/// How far the search is from its end, at most: the spines read as the
/// digits of a number, each digit the weight of its spine, in the place
/// that the room above the spine gives it. `room` is the most cells the
/// heap may hold. A spine that is made lies above the one it is made from,
/// so its digit stands in a lower place.
pub open spec fn potential(spines: Seq<SpineRecord>, radix: nat, room: nat) -> nat
    decreases spines.len(),
{
    if spines.len() == 0 {
        0
    } else {
        potential(spines.drop_last(), radix, room) + weight(spines.last()) * scale(
            radix,
            room_above(spines.last(), room),
        )
    }
}

/// A power of a positive number is positive.
pub proof fn lemma_scale_positive(radix: nat, exponent: nat)
    requires
        radix > 0,
    ensures
        scale(radix, exponent) > 0,
    decreases exponent,
{
    if exponent > 0 {
        lemma_scale_positive(radix, (exponent - 1) as nat);
        assert(radix * scale(radix, (exponent - 1) as nat) > 0) by (nonlinear_arith)
            requires
                radix > 0,
                scale(radix, (exponent - 1) as nat) > 0,
        ;
    }
}

/// A power of a positive number is no less than a lower power of it.
pub proof fn lemma_scale_grows(radix: nat, lower: nat, upper: nat)
    requires
        radix > 0,
        lower <= upper,
    ensures
        scale(radix, lower) <= scale(radix, upper),
    decreases upper,
{
    if lower < upper {
        lemma_scale_grows(radix, lower, (upper - 1) as nat);
        lemma_scale_positive(radix, (upper - 1) as nat);
        assert(scale(radix, (upper - 1) as nat) <= radix * scale(radix, (upper - 1) as nat))
            by (nonlinear_arith)
            requires
                radix > 0,
                scale(radix, (upper - 1) as nat) > 0,
        ;
    }
}

/// A copy of a clause has as many cells as were copied.
pub proof fn lemma_relocated_length(
    entries: Seq<HeapEntry>,
    count: nat,
    base: int,
    length: int,
    to: int,
)
    ensures
        relocate_all(entries, count, base, length, to) matches Some(copy) ==> copy.len() == count,
    decreases count,
{
    if count > 0 {
        lemma_relocated_length(entries, (count - 1) as nat, base, length, to);
    }
}

/// No more clauses are worth trying than were looked at.
pub proof fn lemma_candidates_are_few(
    cells: Seq<HeapEntry>,
    clauses: Seq<ClauseRecord>,
    goal: HeapEntry,
    count: nat,
)
    ensures
        candidates_among(cells, clauses, goal, count).len() <= count,
        count > clauses.len() ==> candidates_among(cells, clauses, goal, count).len() == 0,
    decreases count,
{
    if count > 0 && count <= clauses.len() {
        lemma_candidates_are_few(cells, clauses, goal, (count - 1) as nat);
    }
}

/// The clauses to try are exactly the clauses worth trying, each once, in
/// the order of the clause list.
pub proof fn lemma_candidates_are_the_matches(
    cells: Seq<HeapEntry>,
    clauses: Seq<ClauseRecord>,
    goal: HeapEntry,
    count: nat,
)
    requires
        count <= clauses.len() <= usize::MAX,
    ensures
        forall|k: int|
            0 <= k < candidates_among(cells, clauses, goal, count).len() ==> {
                let picked = #[trigger] candidates_among(cells, clauses, goal, count)[k];
                picked < count && may_match(cells, clauses[picked as int], goal)
            },
        forall|j: int, k: int|
            0 <= j < k < candidates_among(cells, clauses, goal, count).len()
                ==> candidates_among(cells, clauses, goal, count)[j] < candidates_among(
                cells,
                clauses,
                goal,
                count,
            )[k],
        forall|c: int|
            0 <= c < count && may_match(cells, #[trigger] clauses[c], goal) ==> candidates_among(
                cells,
                clauses,
                goal,
                count,
            ).contains(c as usize),
    decreases count,
{
    if count > 0 {
        let before = candidates_among(cells, clauses, goal, (count - 1) as nat);
        let found = candidates_among(cells, clauses, goal, count);
        lemma_candidates_are_the_matches(cells, clauses, goal, (count - 1) as nat);
        assert forall|c: int|
            0 <= c < count && may_match(cells, #[trigger] clauses[c], goal) implies found.contains(
            c as usize,
        ) by {
            if c < count - 1 {
                assert(before.contains(c as usize));
                let k = choose|k: int| 0 <= k < before.len() && before[k] == c as usize;
                assert(found[k] == c as usize);
            } else {
                assert(found[found.len() - 1] == c as usize);
            }
        }
    }
}

/// Every step that leaves the search going on brings it closer to its end,
/// and every step keeps the stack as it should be. So no search goes on for
/// ever: it reports an answer, is exhausted, or runs out of room.
pub proof fn lemma_step_makes_progress(state: Search, clauses: Seq<ClauseRecord>, limits: Limits)
    requires
        spines_wf(state.spines, clauses.len(), state.store.cells.len()),
    ensures
        spines_wf(
            state.step(clauses, limits).0.spines,
            clauses.len(),
            state.step(clauses, limits).0.store.cells.len(),
        ),
        state.step(clauses, limits).1 == Ok::<Progress, EngineError>(Progress::Searching)
            ==> potential(
            state.step(clauses, limits).0.spines,
            clauses.len() + 2,
            limits.heap as nat,
        ) < potential(state.spines, clauses.len() + 2, limits.heap as nat),
{
    let radix = clauses.len() + 2;
    let room = limits.heap as nat;
    let spines = state.spines;
    if spines.len() > 0 {
        let top = spines.last();
        let place = room_above(top, room);
        let rest = potential(spines.drop_last(), radix, room);
        let restored = state.store.restore(top.base as int, top.trail_top as int);
        state.store.lemma_unwind_shape(top.trail_top as int);
        assert(restored.cells.len() == top.base);
        lemma_scale_positive(radix, place);
        assert(weight(top) * scale(radix, place) >= scale(radix, place)) by (nonlinear_arith)
            requires
                weight(top) >= 1,
        ;
        if !state.answered && top.goals.len() > 0 && top.num_unified_clauses
            < top.unifiable_clauses.len() {
            let tried = SpineRecord {
                num_unified_clauses: (top.num_unified_clauses + 1) as usize,
                ..top
            };
            let advanced = spines.drop_last().push(tried);
            assert(advanced.drop_last() =~= spines.drop_last());
            assert(advanced.last() == tried);
            assert(weight(tried) == weight(top) - 1);
            assert(weight(tried) * scale(radix, place) == weight(top) * scale(radix, place) - scale(
                radix,
                place,
            )) by (nonlinear_arith)
                requires
                    weight(tried) == weight(top) - 1,
            ;
            assert(potential(advanced, radix, room) == rest + weight(tried) * scale(radix, place));
            assert(spines_wf(advanced, clauses.len(), restored.cells.len())) by {
                assert forall|k: int| 0 <= k < advanced.len() implies (#[trigger] advanced[k]).num_unified_clauses
                    <= advanced[k].unifiable_clauses.len() <= clauses.len() by {
                    if k < advanced.len() - 1 {
                        assert(advanced[k] == spines[k]);
                    }
                }
                assert forall|j: int, k: int| 0 <= j < k < advanced.len() implies (
                #[trigger] advanced[j]).base <= (#[trigger] advanced[k]).base by {
                    assert(spines[j].base <= spines[k].base);
                }
            }
            let next = state.step(clauses, limits).0;
            if next.spines != advanced {
                let made = next.spines.last();
                let picked = top.unifiable_clauses[top.num_unified_clauses as int];
                let clause = clauses[picked as int];
                let copy = renamed(restored.cells, clause, limits.heap as int)->Ok_0;
                assert(next.spines == advanced.push(made));
                assert(next.spines.drop_last() =~= advanced);
                lemma_relocated_length(
                    restored.cells.subrange(clause.base as int, clause.base + clause.length),
                    clause.length as nat,
                    clause.base as int,
                    clause.length as int,
                    restored.cells.len() as int,
                );
                assert(copy.len() == top.base + clause.length);
                lemma_unify_can_be_taken_back(
                    Store { cells: copy, trail: restored.trail },
                    top.goals[0].data as int,
                    relocate_all(
                        clause.terms,
                        clause.terms.len(),
                        clause.base as int,
                        clause.length as int,
                        restored.cells.len() as int,
                    )->0[0].data as int,
                    copy.len(),
                    limits.trail as nat,
                );
                assert(next.store.cells.len() == copy.len());
                assert(made.base == copy.len());
                assert(candidates(next.store.cells, clauses, made.goals) == Ok::<
                    Seq<usize>,
                    EngineError,
                >(made.unifiable_clauses));
                if made.goals.len() > 0 {
                    lemma_candidates_are_few(
                        next.store.cells,
                        clauses,
                        made.goals[0],
                        clauses.len(),
                    );
                }
                assert(weight(made) <= radix - 1);
                let above = room_above(made, room);
                assert(above + 1 <= place);
                lemma_scale_positive(radix, above);
                lemma_scale_grows(radix, above + 1, place);
                assert(scale(radix, above + 1) == radix * scale(radix, above));
                assert(weight(made) * scale(radix, above) < radix * scale(radix, above))
                    by (nonlinear_arith)
                    requires
                        weight(made) <= radix - 1,
                        scale(radix, above) > 0,
                ;
                assert(spines_wf(next.spines, clauses.len(), next.store.cells.len())) by {
                    assert forall|k: int| 0 <= k < next.spines.len() implies (
                    #[trigger] next.spines[k]).num_unified_clauses
                        <= next.spines[k].unifiable_clauses.len() <= clauses.len() by {
                        if k < next.spines.len() - 1 {
                            assert(next.spines[k] == advanced[k]);
                        }
                    }
                    assert forall|j: int, k: int| 0 <= j < k < next.spines.len() implies (
                    #[trigger] next.spines[j]).base <= (#[trigger] next.spines[k]).base by {
                        assert(advanced[j].base <= advanced.last().base);
                        if k < next.spines.len() - 1 {
                            assert(advanced[j].base <= advanced[k].base);
                        }
                    }
                }
            } else {
                assert(next.store == restored);
            }
        } else if !state.answered && top.goals.len() == 0 {
        } else {
            let kept = spines.drop_last();
            assert(spines_wf(kept, clauses.len(), restored.cells.len())) by {
                assert forall|k: int| 0 <= k < kept.len() implies (#[trigger] kept[k]).num_unified_clauses
                    <= kept[k].unifiable_clauses.len() <= clauses.len() by {
                    assert(kept[k] == spines[k]);
                }
                assert forall|j: int, k: int| 0 <= j < k < kept.len() implies (
                #[trigger] kept[j]).base <= (#[trigger] kept[k]).base by {
                    assert(spines[j].base <= spines[k].base);
                }
                if kept.len() > 0 {
                    assert(kept.last() == spines[spines.len() - 2]);
                    assert(spines[spines.len() - 2].base <= spines[spines.len() - 1].base);
                }
            }
        }
    }
}

} // verus!
