//! The search for answers, stated as a function from one state of the
//! search to the next.
//!
//! The state is the heap, the trail and a stack of spines. The spine on top
//! holds the goals still to prove and the clauses still to try on the first
//! of them. A step tries one clause, or gives up the top spine, or reports
//! that the goals on top are all proved.

use vstd::prelude::*;
use crate::block::{slot_readable, subterm, subterms, subterms_readable};
use crate::compiler::SpineRecord;
use crate::error::EngineError;
use crate::heap::{HeapEntry, HeapTag};
use crate::layout::{cell, ClauseRecord};
use crate::store::Store;
use crate::unify::unify_terms;

verus! {

/// The bounds that a search is held to.
#[derive(Copy, Clone, Debug, PartialEq, Eq, Structural)]
pub struct Limits {
    /// Most cells the heap may hold.
    pub heap: usize,
    /// Most bindings the trail may record.
    pub trail: usize,
}

/// What a step of the search comes to.
#[derive(Copy, Clone, Debug, PartialEq, Eq, Structural)]
pub enum Progress {
    /// Every goal on top is proved: the heap holds an answer.
    Solution,
    /// No spine is left: there are no more answers.
    Exhausted,
    /// The search goes on.
    Searching,
}

/// A state of the search.
#[verifier::ext_equal]
pub struct Search {
    pub store: Store,
    pub spines: Seq<SpineRecord>,
    /// Whether the spine on top holds an answer that has been reported.
    pub answered: bool,
}

/// The state after a step, and what the step came to.
pub type Stepped = (Search, Result<Progress, EngineError>);

/// A cell of a clause as it reads in a copy of the clause that starts at
/// `to`: a pointer into the clause points as far into the copy. There is
/// none for a pointer that leaves the clause.
pub open spec fn relocate(entry: HeapEntry, base: int, length: int, to: int) -> Option<HeapEntry> {
    match entry.tag {
        HeapTag::Variable | HeapTag::Unify | HeapTag::Reference => if base <= entry.data < base
            + length {
            Some(cell(entry.tag, entry.data - base + to))
        } else {
            None
        },
        _ => Some(entry),
    }
}

/// The first `count` of `entries` as they read in a copy of the clause, if
/// none of them points out of the clause.
pub open spec fn relocate_all(
    entries: Seq<HeapEntry>,
    count: nat,
    base: int,
    length: int,
    to: int,
) -> Option<Seq<HeapEntry>>
    decreases count,
{
    if count == 0 {
        Some(Seq::empty())
    } else {
        match (
            relocate_all(entries, (count - 1) as nat, base, length, to),
            relocate(entries[count - 1], base, length, to),
        ) {
            (Some(before), Some(entry)) => Some(before.push(entry)),
            _ => None,
        }
    }
}

/// The heap with a fresh copy of `clause` on top, its variables renamed by
/// moving every pointer into the copy. The clause must lie within the heap
/// and none of its cells may point out of it; the heap may not grow beyond
/// `heap_limit`.
pub open spec fn renamed(cells: Seq<HeapEntry>, clause: ClauseRecord, heap_limit: int) -> Result<
    Seq<HeapEntry>,
    EngineError,
> {
    if clause.base + clause.length > cells.len() {
        Err(EngineError::InternalInvariantViolation)
    } else if cells.len() + clause.length > heap_limit {
        Err(EngineError::ResourceExhausted)
    } else {
        match relocate_all(
            cells.subrange(clause.base as int, clause.base + clause.length),
            clause.length as nat,
            clause.base as int,
            clause.length as int,
            cells.len() as int,
        ) {
            Some(copy) => Ok(cells + copy),
            None => Err(EngineError::InternalInvariantViolation),
        }
    }
}

/// Whether an entry is ground: a constant or a number.
pub open spec fn is_ground(entry: HeapEntry) -> bool {
    entry.tag == HeapTag::Constant || entry.tag == HeapTag::Number
}

/// Whether a subterm of a head and the subterm of a goal in the same place
/// may unify, as far as a look at the two entries tells: ground entries
/// that differ do not.
pub open spec fn compatible(head: HeapEntry, goal: HeapEntry) -> bool {
    !(is_ground(head) && is_ground(goal) && head != goal)
}

/// Whether `clause` is worth trying on `goal`: head and goal have the same
/// argument count, their functors are not symbols that differ, and no
/// argument of the head is ground where the goal's is ground and different.
pub open spec fn may_match(cells: Seq<HeapEntry>, clause: ClauseRecord, goal: HeapEntry) -> bool {
    let wanted = subterms(cells, goal);
    &&& clause.base + 1 < cells.len()
    &&& cells[clause.base as int].data == cells[goal.data as int].data
    &&& compatible(cells[clause.base + 1], subterm(cells, goal.data + 1))
    &&& clause.head_subterms.len() == wanted.len()
    &&& forall|j: int|
        0 <= j < wanted.len() ==> compatible(#[trigger] clause.head_subterms[j], wanted[j])
}

/// Of the first `count` clauses, those worth trying on `goal`, by their
/// position and in order.
pub open spec fn candidates_among(
    cells: Seq<HeapEntry>,
    clauses: Seq<ClauseRecord>,
    goal: HeapEntry,
    count: nat,
) -> Seq<usize>
    decreases count,
{
    if count == 0 || count > clauses.len() {
        Seq::empty()
    } else {
        let before = candidates_among(cells, clauses, goal, (count - 1) as nat);
        if may_match(cells, clauses[count - 1], goal) {
            before.push((count - 1) as usize)
        } else {
            before
        }
    }
}

/// The clauses to try on the first of `goals`: none if there is no goal.
/// The first goal must be a block within the heap whose functor and
/// arguments can be read.
pub open spec fn candidates(
    cells: Seq<HeapEntry>,
    clauses: Seq<ClauseRecord>,
    goals: Seq<HeapEntry>,
) -> Result<Seq<usize>, EngineError> {
    if goals.len() == 0 {
        Ok(Seq::empty())
    } else if !subterms_readable(cells, goals[0]) || !slot_readable(cells, goals[0].data + 1) {
        Err(EngineError::InternalInvariantViolation)
    } else {
        Ok(candidates_among(cells, clauses, goals[0], clauses.len()))
    }
}

impl Search {
    /// The state after the spine on top has been given up: heap and trail
    /// are as they were when the spine was made.
    pub open spec fn backtrack(self) -> Search {
        let top = self.spines.last();
        Search {
            store: self.store.restore(top.base as int, top.trail_top as int),
            spines: self.spines.drop_last(),
            answered: false,
        }
    }

    /// The state after the next clause of the spine on top has been tried
    /// on its first goal.
    ///
    /// Heap and trail are first put back to where they were when the spine
    /// was made. The clause is copied to the top of the heap and the head of
    /// the copy is unified with the goal. If they unify, a new spine goes on
    /// top: its goals are the body of the copy and then the other goals of
    /// the old spine, and its clauses are those worth trying on the first of
    /// these. If they do not unify, heap and trail are put back again.
    /// Either way the clause counts as tried.
    pub open spec fn attempt(self, clauses: Seq<ClauseRecord>, limits: Limits) -> Stepped {
        let top = self.spines.last();
        let goal = top.goals[0];
        let picked = top.unifiable_clauses[top.num_unified_clauses as int];
        let advanced = self.spines.drop_last().push(
            SpineRecord { num_unified_clauses: (top.num_unified_clauses + 1) as usize, ..top },
        );
        let restored = self.store.restore(top.base as int, top.trail_top as int);
        let tried = Search { store: restored, spines: advanced, answered: false };
        if picked >= clauses.len() {
            (tried, Err(EngineError::InternalInvariantViolation))
        } else {
            let clause = clauses[picked as int];
            let to = restored.cells.len() as int;
            match (
                renamed(restored.cells, clause, limits.heap as int),
                relocate_all(
                    clause.terms,
                    clause.terms.len(),
                    clause.base as int,
                    clause.length as int,
                    to,
                ),
            ) {
                (Err(error), _) => (tried, Err(error)),
                (Ok(_), None) => (tried, Err(EngineError::InternalInvariantViolation)),
                (Ok(cells), Some(terms)) => if terms.len() == 0 || clause.length == 0 {
                    (tried, Err(EngineError::InternalInvariantViolation))
                } else {
                    let unified = unify_terms(
                        Store { cells, trail: restored.trail },
                        goal.data as int,
                        terms[0].data as int,
                        cells.len(),
                        limits.trail as nat,
                    );
                    match unified.1 {
                        Err(error) => (tried, Err(error)),
                        Ok(false) => (tried, Ok(Progress::Searching)),
                        Ok(true) => {
                            let goals = terms.skip(1) + top.goals.skip(1);
                            match candidates(unified.0.cells, clauses, goals) {
                                Err(error) => (tried, Err(error)),
                                Ok(unifiable_clauses) => (
                                    Search {
                                        store: unified.0,
                                        spines: advanced.push(
                                            SpineRecord {
                                                base: unified.0.cells.len() as usize,
                                                trail_top: unified.0.trail.len() as usize,
                                                goals,
                                                dereferenced_elements: Seq::empty(),
                                                unifiable_clauses,
                                                num_unified_clauses: 0,
                                            },
                                        ),
                                        answered: false,
                                    },
                                    Ok(Progress::Searching),
                                ),
                            }
                        },
                    }
                },
            }
        }
    }

    /// One step of the search.
    ///
    /// With no spine left the search is exhausted. If the spine on top holds
    /// an answer that has been reported, it is given up. If it has no goal
    /// left, its answer is reported. If it has a clause left to try, that
    /// clause is tried. Else the spine is given up.
    pub open spec fn step(self, clauses: Seq<ClauseRecord>, limits: Limits) -> Stepped {
        if self.spines.len() == 0 {
            (self, Ok(Progress::Exhausted))
        } else if self.answered {
            (self.backtrack(), Ok(Progress::Searching))
        } else if self.spines.last().goals.len() == 0 {
            (Search { answered: true, ..self }, Ok(Progress::Solution))
        } else if self.spines.last().num_unified_clauses
            < self.spines.last().unifiable_clauses.len() {
            self.attempt(clauses, limits)
        } else {
            (self.backtrack(), Ok(Progress::Searching))
        }
    }

    /// The state after `steps` steps.
    pub open spec fn advance(self, clauses: Seq<ClauseRecord>, limits: Limits, steps: nat) -> Search
        decreases steps,
    {
        if steps == 0 {
            self
        } else {
            self.advance(clauses, limits, (steps - 1) as nat).step(clauses, limits).0
        }
    }

    /// What the step after `steps` steps comes to, and the state it leaves.
    pub open spec fn outcome_after(
        self,
        clauses: Seq<ClauseRecord>,
        limits: Limits,
        steps: nat,
    ) -> Stepped {
        self.advance(clauses, limits, steps).step(clauses, limits)
    }

    /// Whether the search stops for the first time after `steps` steps: each
    /// step before leaves it going on, and the next one does not.
    pub open spec fn stops_after(self, clauses: Seq<ClauseRecord>, limits: Limits, steps: nat) -> bool {
        &&& self.searches_for(clauses, limits, steps)
        &&& self.outcome_after(clauses, limits, steps).1 != Ok::<Progress, EngineError>(
            Progress::Searching,
        )
    }

    /// Whether each of the first `steps` steps leaves the search going on.
    pub open spec fn searches_for(self, clauses: Seq<ClauseRecord>, limits: Limits, steps: nat) -> bool
        decreases steps,
    {
        steps == 0 || (self.searches_for(clauses, limits, (steps - 1) as nat) && self.advance(
            clauses,
            limits,
            (steps - 1) as nat,
        ).step(clauses, limits).1 == Ok::<Progress, EngineError>(Progress::Searching))
    }
}

} // verus!
