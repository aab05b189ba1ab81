//! Every constant on the heap has a name: the compiler writes none without
//! interning its name, the search makes none but by copying, and so every
//! term on the heap can be read back.

use vstd::prelude::*;
use crate::answer::{read_bindings, read_value, read_values, ValueView};
use crate::ast::{Clause, CompoundTerm, Query, SimpleTerm, Term};
use crate::block::{block_width, is_wrapped};
use crate::error::EngineError;
use crate::heap::{HeapEntry, HeapIndex, HeapTag};
use crate::laws::search_soundness::{
    clause_stored, copy_of, goal_ready, lemma_copied_is_sound, lemma_copied_terms,
    lemma_renamed_is_copied, lemma_tried_is_sound, spine_ready, tried,
};
use crate::laws::shape::cell_formed;
use crate::laws::soundness::{
    lemma_resolve_succeeds, lemma_restore_keeps_sound, lemma_unify_keeps_sound,
};
use crate::laws::unify_laws::lemma_resolve_ends;
use crate::laws::unify_soundness::{bindable, kept_by_binding, lemma_unify_keeps};
use crate::layout::{cell, ClauseRecord, Layout};
use crate::search::{Limits, relocate_all, renamed, Search};
use crate::store::{resolve, Store};

verus! {

/// Whether the cell at `at`, if it holds a constant, holds the id of one of
/// `count` names.
pub open spec fn cell_named(cells: Seq<HeapEntry>, at: int, count: nat) -> bool {
    cells[at].tag == HeapTag::Constant ==> cells[at].data < count
}

/// Whether every constant on the heap is the id of one of `count` names.
pub open spec fn named(cells: Seq<HeapEntry>, count: nat) -> bool {
    forall|at: int| 0 <= at < cells.len() ==> #[trigger] cell_named(cells, at, count)
}

impl Layout {
    /// Whether every constant on the heap is the id of an interned name.
    pub open spec fn lettered(self) -> bool {
        self.cells.len() <= usize::MAX && self.symbols.len() <= usize::MAX && named(
            self.cells,
            self.symbols.len(),
        )
    }

    /// A state that continues a lettered one by cells that are all named
    /// is lettered.
    pub proof fn lemma_lettered_on(self, later: Layout, from: int)
        requires
            self.lettered(),
            later.cells.len() <= usize::MAX,
            later.symbols.len() <= usize::MAX,
            self.symbols.len() <= later.symbols.len(),
            forall|at: int|
                0 <= at < later.cells.len() ==> #[trigger] cell_named(
                    later.cells,
                    at,
                    later.symbols.len(),
                ) || (at < self.cells.len() && later.cells[at] == self.cells[at]),
        ensures
            later.lettered(),
    {
        assert forall|at: int| 0 <= at < later.cells.len() implies #[trigger] cell_named(
            later.cells,
            at,
            later.symbols.len(),
        ) by {
            if at < self.cells.len() && later.cells[at] == self.cells[at] {
                assert(cell_named(self.cells, at, self.symbols.len()));
            }
        }
    }

    /// Writing an atom or variable keeps the heap lettered.
    pub proof fn lemma_put_simple_lettered(self, term: SimpleTerm, index: int)
        requires
            self.lettered(),
            0 <= index < self.cells.len(),
            self.put_simple(term, index).symbols.len() <= usize::MAX,
        ensures
            self.put_simple(term, index).lettered(),
    {
        let after = self.put_simple(term, index);
        match term {
            SimpleTerm::Atom(name) => {
                Self::lemma_intern_keeps(self.symbols, name@);
            },
            SimpleTerm::Variable(name) => {},
        }
        self.lemma_put_simple_keeps(term, index);
        assert forall|at: int| 0 <= at < after.cells.len() implies #[trigger] cell_named(
            after.cells,
            at,
            after.symbols.len(),
        ) || (at < self.cells.len() && after.cells[at] == self.cells[at]) by {}
        self.lemma_lettered_on(after, index);
    }

    /// Laying out a compound term keeps the heap lettered.
    pub proof fn lemma_put_compound_lettered(self, term: CompoundTerm)
        requires
            self.lettered(),
            self.put_compound(term).cells.len() <= usize::MAX,
            self.put_compound(term).symbols.len() <= usize::MAX,
        ensures
            self.put_compound(term).lettered(),
        decreases term, 0nat,
    {
        let start = self.cells.len() as int;
        let count = term.parameters@.len();
        let reserved = self.reserve(2 + count);
        let headed = reserved.store(start, cell(HeapTag::Arity, count as int));
        let named_state = headed.put_simple(term.name, start + 1);
        self.lemma_put_compound_keeps(term);
        headed.lemma_put_simple_keeps(term.name, start + 1);
        named_state.lemma_put_parameters_keeps(term.parameters@, start + 2, count);
        assert forall|at: int| 0 <= at < headed.cells.len() implies #[trigger] cell_named(
            headed.cells,
            at,
            headed.symbols.len(),
        ) || (at < self.cells.len() && headed.cells[at] == self.cells[at]) by {}
        self.lemma_lettered_on(headed, start);
        assert(named_state.symbols.is_prefix_of(
            named_state.put_parameters(term.parameters@, start + 2, count).symbols,
        ));
        headed.lemma_put_simple_lettered(term.name, start + 1);
        named_state.lemma_put_parameters_lettered(term.parameters@, start + 2, count);
    }

    /// Writing parameters keeps the heap lettered.
    pub proof fn lemma_put_parameters_lettered(
        self,
        parameters: Seq<Term>,
        first: int,
        count: nat,
    )
        requires
            self.lettered(),
            0 <= first,
            count <= parameters.len(),
            first + count <= self.cells.len(),
            self.put_parameters(parameters, first, count).cells.len() <= usize::MAX,
            self.put_parameters(parameters, first, count).symbols.len() <= usize::MAX,
        ensures
            self.put_parameters(parameters, first, count).lettered(),
        decreases parameters, count,
    {
        if count > 0 {
            let before = self.put_parameters(parameters, first, (count - 1) as nat);
            let slot = first + count - 1;
            self.lemma_put_parameters_keeps(parameters, first, (count - 1) as nat);
            match parameters[count - 1] {
                Term::Simple(simple) => {
                    before.lemma_put_simple_keeps(simple, slot);
                    self.lemma_put_parameters_lettered(parameters, first, (count - 1) as nat);
                    before.lemma_put_simple_lettered(simple, slot);
                },
                Term::Compound(compound) => {
                    before.lemma_put_compound_keeps(compound);
                    self.lemma_put_parameters_lettered(parameters, first, (count - 1) as nat);
                    before.lemma_put_compound_lettered(compound);
                    let nested = before.put_compound(compound);
                    let linked = nested.store(
                        slot,
                        cell(HeapTag::Reference, before.cells.len() as int),
                    );
                    assert forall|at: int| 0 <= at < linked.cells.len() implies #[trigger] cell_named(
                        linked.cells,
                        at,
                        linked.symbols.len(),
                    ) || (at < nested.cells.len() && linked.cells[at] == nested.cells[at]) by {}
                    nested.lemma_lettered_on(linked, slot);
                },
            }
        }
    }

    /// Laying out a head or goal keeps the heap lettered.
    pub proof fn lemma_put_goal_lettered(self, term: Term)
        requires
            self.lettered(),
            self.put_goal(term).cells.len() <= usize::MAX,
            self.put_goal(term).symbols.len() <= usize::MAX,
        ensures
            self.put_goal(term).lettered(),
    {
        match term {
            Term::Simple(simple) => {
                let start = self.cells.len() as int;
                let room = self.put_wrapper().reserve(1);
                assert forall|at: int| 0 <= at < room.cells.len() implies #[trigger] cell_named(
                    room.cells,
                    at,
                    room.symbols.len(),
                ) || (at < self.cells.len() && room.cells[at] == self.cells[at]) by {}
                self.lemma_lettered_on(room, start);
                room.lemma_put_simple_lettered(simple, start + 1);
            },
            Term::Compound(compound) => {
                self.lemma_put_compound_lettered(compound);
            },
        }
    }

    /// Laying out goals keeps the heap lettered.
    pub proof fn lemma_put_goals_lettered(self, goals: Seq<Term>, count: nat)
        requires
            self.lettered(),
            count <= goals.len(),
            self.put_goals(goals, count).cells.len() <= usize::MAX,
            self.put_goals(goals, count).symbols.len() <= usize::MAX,
        ensures
            self.put_goals(goals, count).lettered(),
        decreases count,
    {
        if count > 0 {
            let before = self.put_goals(goals, (count - 1) as nat);
            before.lemma_put_goal_keeps(goals[count - 1]);
            self.lemma_put_goals_lettered(goals, (count - 1) as nat);
            before.lemma_put_goal_lettered(goals[count - 1]);
        }
    }

    /// Laying out a clause keeps the heap lettered.
    pub proof fn lemma_put_clause_lettered(self, clause: Clause)
        requires
            self.lettered(),
            self.put_clause(clause).cells.len() <= usize::MAX,
            self.put_clause(clause).symbols.len() <= usize::MAX,
        ensures
            self.put_clause(clause).lettered(),
    {
        let scope = self.forget_variables();
        let head_done = scope.put_goal(clause.head);
        scope.lemma_put_goal_keeps(clause.head);
        head_done.lemma_put_goals_keeps(clause.body@, clause.body@.len());
        scope.lemma_put_goal_lettered(clause.head);
        head_done.lemma_put_goals_lettered(clause.body@, clause.body@.len());
    }

    /// Laying out clauses keeps the heap lettered.
    pub proof fn lemma_put_clauses_lettered(self, clauses: Seq<Clause>, count: nat)
        requires
            self.lettered(),
            count <= clauses.len(),
            self.put_clauses(clauses, count).cells.len() <= usize::MAX,
            self.put_clauses(clauses, count).symbols.len() <= usize::MAX,
        ensures
            self.put_clauses(clauses, count).lettered(),
        decreases count,
    {
        if count > 0 {
            let before = self.put_clauses(clauses, (count - 1) as nat);
            before.lemma_put_clause_keeps(clauses[count - 1]);
            self.lemma_put_clauses_lettered(clauses, (count - 1) as nat);
            before.lemma_put_clause_lettered(clauses[count - 1]);
        }
    }

    /// Laying out queries keeps the heap lettered.
    pub proof fn lemma_put_queries_lettered(self, queries: Seq<Query>, count: nat)
        requires
            self.lettered(),
            count <= queries.len(),
            self.put_queries(queries, count).cells.len() <= usize::MAX,
            self.put_queries(queries, count).symbols.len() <= usize::MAX,
        ensures
            self.put_queries(queries, count).lettered(),
        decreases count,
    {
        if count > 0 {
            let before = self.put_queries(queries, (count - 1) as nat);
            let query = queries[count - 1];
            before.lemma_put_query_keeps(query);
            self.lemma_put_queries_lettered(queries, (count - 1) as nat);
            before.forget_variables().lemma_put_goals_lettered(
                query.sub_queries@,
                query.sub_queries@.len(),
            );
        }
    }
}

/// In a sound store whose constants are named, every term can be read
/// back: reading reports no violation.
pub proof fn lemma_read_meets_no_violation(
    store: Store,
    symbols: Seq<Seq<char>>,
    at: int,
    depth: nat,
    floor: int,
)
    requires
        store.sound(floor),
        named(store.cells, symbols.len()),
        0 <= at < store.cells.len(),
    ensures
        read_value(store.cells, symbols, at, depth) != Err::<ValueView, EngineError>(
            EngineError::InternalInvariantViolation,
        ),
    decreases depth, 0nat, 0nat,
{
    let cells = store.cells;
    lemma_resolve_succeeds(cells, at);
    lemma_resolve_ends(cells, at, cells.len());
    let end = resolve(cells, at, cells.len())->0;
    assert(cell_formed(cells, end));
    assert(cell_named(cells, end, symbols.len()));
    assert(cells[end].tag != HeapTag::Uninitialized);
    if cells[end].tag == HeapTag::Arity && depth > 0 {
        if is_wrapped(cells, end) {
            lemma_read_meets_no_violation(store, symbols, end + 1, (depth - 1) as nat, floor);
        } else {
            lemma_read_all_meets_no_violation(
                store,
                symbols,
                end + 1,
                block_width(cells, end) as nat,
                (depth - 1) as nat,
                floor,
            );
        }
    }
}

/// In a sound store whose constants are named, cells in a row can all be
/// read back.
pub proof fn lemma_read_all_meets_no_violation(
    store: Store,
    symbols: Seq<Seq<char>>,
    from: int,
    count: nat,
    depth: nat,
    floor: int,
)
    requires
        store.sound(floor),
        named(store.cells, symbols.len()),
        0 <= from,
        from + count <= store.cells.len(),
    ensures
        read_values(store.cells, symbols, from, count, depth) != Err::<
            Seq<ValueView>,
            EngineError,
        >(EngineError::InternalInvariantViolation),
    decreases depth, 1nat, count,
{
    if count > 0 {
        lemma_read_all_meets_no_violation(store, symbols, from, (count - 1) as nat, depth, floor);
        lemma_read_meets_no_violation(store, symbols, from + count - 1, depth, floor);
    }
}

/// In a sound store whose constants are named, the variables of a query
/// can all be read back, if their cells are cells of the heap.
pub proof fn lemma_read_bindings_meets_no_violation(
    store: Store,
    symbols: Seq<Seq<char>>,
    variables: Seq<(Seq<char>, HeapIndex)>,
    count: nat,
    depth: nat,
    floor: int,
)
    requires
        store.sound(floor),
        named(store.cells, symbols.len()),
        forall|i: int| 0 <= i < variables.len() ==> (#[trigger] variables[i]).1 < store.cells.len(),
    ensures
        read_bindings(store.cells, symbols, variables, count, depth) != Err::<
            Seq<(Seq<char>, ValueView)>,
            EngineError,
        >(EngineError::InternalInvariantViolation),
    decreases count,
{
    if count > 0 && count <= variables.len() {
        lemma_read_bindings_meets_no_violation(
            store,
            symbols,
            variables,
            (count - 1) as nat,
            depth,
            floor,
        );
        assert(variables[count - 1].1 < store.cells.len());
        lemma_read_meets_no_violation(store, symbols, variables[count - 1].1 as int, depth, floor);
    }
}

/// Whether heap and spines lie at or above `level`: the heap is at least
/// that long, and no spine goes back below it.
pub open spec fn held_above(state: Search, level: int) -> bool {
    &&& state.store.cells.len() >= level
    &&& forall|k: int| 0 <= k < state.spines.len() ==> (#[trigger] state.spines[k]).base >= level
}

/// No step of a sound search cuts the heap back below the level that heap
/// and spines lie above: what was on the heap when the search started stays
/// there.
pub proof fn lemma_step_keeps_level(
    state: Search,
    clauses: Seq<ClauseRecord>,
    limits: Limits,
    floor: int,
    level: int,
)
    requires
        state.sound(clauses, floor),
        held_above(state, level),
    ensures
        held_above(state.step(clauses, limits).0, level),
{
    let after = state.step(clauses, limits).0;
    if state.spines.len() == 0 {
    } else {
        let last = state.spines.len() - 1;
        let top = state.spines[last];
        assert(spine_ready(state.store, state.spines[last], clauses.len(), floor));
        lemma_restore_keeps_sound(
            state.store,
            floor,
            top.base as int,
            top.trail_top as int,
        );
        if !state.answered && top.goals.len() > 0 && top.num_unified_clauses
            < top.unifiable_clauses.len() {
            lemma_tried_is_sound(state, clauses, floor);
            let before = tried(state);
            let restored = before.store;
            assert forall|k: int| 0 <= k < before.spines.len() implies (
            #[trigger] before.spines[k]).base >= level by {
                assert(state.spines[k].base >= level);
            }
            if after.spines != before.spines {
                let picked = top.unifiable_clauses[top.num_unified_clauses as int];
                let clause = clauses[picked as int];
                assert(clause_stored(restored.cells, clauses[picked as int], floor));
                lemma_renamed_is_copied(restored.cells, clause, limits.heap as int);
                let cells = renamed(restored.cells, clause, limits.heap as int)->Ok_0;
                let copied_store = Store { cells, trail: restored.trail };
                lemma_copied_is_sound(restored, cells, clause, floor);
                lemma_copied_terms(restored.cells, cells, clause);
                let terms = relocate_all(
                    clause.terms,
                    clause.terms.len(),
                    clause.base as int,
                    clause.length as int,
                    restored.cells.len() as int,
                )->0;
                assert(spine_ready(restored, before.spines[last], clauses.len(), floor));
                assert(goal_ready(
                    restored.cells,
                    before.spines[last].goals[0],
                    floor,
                    top.base as int,
                ));
                lemma_unify_keeps_sound(
                    copied_store,
                    top.goals[0].data as int,
                    terms[0].data as int,
                    copied_store.cells.len(),
                    limits.trail as nat,
                    floor,
                );
                assert forall|k: int| 0 <= k < after.spines.len() implies (
                #[trigger] after.spines[k]).base >= level by {
                    if k < before.spines.len() {
                        assert(after.spines[k] == before.spines[k]);
                    }
                }
            }
        } else if !state.answered && top.goals.len() == 0 {
        } else {
            assert forall|k: int| 0 <= k < after.spines.len() implies (
            #[trigger] after.spines[k]).base >= level by {
                assert(after.spines[k] == state.spines[k]);
            }
        }
    }
}

/// Every binding keeps the constants named.
pub proof fn lemma_kept_by_binding_named(floor: int, count: nat)
    ensures
        kept_by_binding(|c: Seq<HeapEntry>| named(c, count), floor),
{
    let kept = |c: Seq<HeapEntry>| named(c, count);
    assert forall|store: Store, variable: int, target: int|
        bindable(store, variable, target, floor) && kept(store.cells) implies #[trigger] kept(
        store.bind(variable, target).cells,
    ) by {
        let after = store.bind(variable, target).cells;
        assert forall|at: int| 0 <= at < after.len() implies #[trigger] cell_named(
            after,
            at,
            count,
        ) by {
            if at != variable {
                assert(cell_named(store.cells, at, count));
            }
        }
    }
}

/// Putting heap and trail back keeps the constants named.
pub proof fn lemma_restore_keeps_named(store: Store, base: int, trail_top: int, count: nat)
    requires
        named(store.cells, count),
        0 <= trail_top,
    ensures
        named(store.restore(base, trail_top).cells, count),
{
    let unwound = store.unwind(trail_top);
    store.lemma_unwind_shape(trail_top);
    assert forall|at: int| 0 <= at < unwound.cells.len() implies #[trigger] cell_named(
        unwound.cells,
        at,
        count,
    ) by {
        assert(cell_named(store.cells, at, count));
        if exists|j: int| trail_top <= j < store.trail.len() && store.trail[j] == at {
            let j = choose|j: int| trail_top <= j < store.trail.len() && store.trail[j] == at;
            assert(unwound.cells[store.trail[j] as int] == cell(
                HeapTag::Variable,
                store.trail[j] as int,
            ));
        }
    }
    let after = store.restore(base, trail_top).cells;
    assert forall|at: int| 0 <= at < after.len() implies #[trigger] cell_named(after, at, count) by {
        assert(cell_named(unwound.cells, at, count));
    }
}

/// Every step of a sound search keeps the constants named.
pub proof fn lemma_step_keeps_named(
    state: Search,
    clauses: Seq<ClauseRecord>,
    limits: Limits,
    floor: int,
    count: nat,
)
    requires
        state.sound(clauses, floor),
        named(state.store.cells, count),
    ensures
        named(state.step(clauses, limits).0.store.cells, count),
{
    let after = state.step(clauses, limits).0;
    if state.spines.len() == 0 {
    } else {
        let last = state.spines.len() - 1;
        let top = state.spines[last];
        lemma_restore_keeps_named(state.store, top.base as int, top.trail_top as int, count);
        if !state.answered && top.goals.len() > 0 && top.num_unified_clauses
            < top.unifiable_clauses.len() {
            lemma_tried_is_sound(state, clauses, floor);
            let before = tried(state);
            let restored = before.store;
            if after.store != restored {
                let picked = top.unifiable_clauses[top.num_unified_clauses as int];
                assert(spine_ready(state.store, state.spines[last], clauses.len(), floor));
                let clause = clauses[picked as int];
                assert(clause_stored(restored.cells, clauses[picked as int], floor));
                lemma_renamed_is_copied(restored.cells, clause, limits.heap as int);
                let cells = renamed(restored.cells, clause, limits.heap as int)->Ok_0;
                assert forall|at: int| 0 <= at < cells.len() implies #[trigger] cell_named(
                    cells,
                    at,
                    count,
                ) by {
                    if at < restored.cells.len() {
                        assert(cells[at] == restored.cells[at]);
                        assert(cell_named(restored.cells, at, count));
                    } else {
                        let k = at - restored.cells.len();
                        assert(copy_of(
                            restored.cells,
                            cells,
                            clause.base as int,
                            clause.length as int,
                            k,
                        ));
                        assert(cell_named(restored.cells, clause.base + k, count));
                    }
                }
                let copied_store = Store { cells, trail: restored.trail };
                lemma_copied_is_sound(restored, cells, clause, floor);
                lemma_copied_terms(restored.cells, cells, clause);
                let terms = relocate_all(
                    clause.terms,
                    clause.terms.len(),
                    clause.base as int,
                    clause.length as int,
                    restored.cells.len() as int,
                )->0;
                assert(spine_ready(restored, before.spines[last], clauses.len(), floor));
                assert(goal_ready(
                    restored.cells,
                    before.spines[last].goals[0],
                    floor,
                    top.base as int,
                ));
                lemma_kept_by_binding_named(floor, count);
                lemma_unify_keeps(
                    copied_store,
                    top.goals[0].data as int,
                    terms[0].data as int,
                    copied_store.cells.len(),
                    limits.trail as nat,
                    floor,
                    |c: Seq<HeapEntry>| named(c, count),
                );
            }
        }
    }
}

} // verus!
