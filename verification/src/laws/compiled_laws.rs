//! What the compiler leaves is what the search needs: a search that starts
//! from a compiled program starts sound.

use vstd::prelude::*;
use crate::ast::{Clause, Query};
use crate::block::block_fits;
use crate::compiler::{initial_spine, initial_spines};
use crate::heap::{HeapEntry, HeapTag};
use crate::laws::backtracking::snapshot;
use crate::laws::indexing::{
    clause_indexed, complete, left_out, lemma_indexed_kept, lemma_step_keeps_complete,
    spine_complete,
};
use crate::laws::layout_shape::{alias_leads_to_variable, aliases_lead_to_variables};
use crate::laws::search_soundness::{
    clause_ready, clause_stored, goal_ready, lemma_fresh_marks, lemma_step_keeps_sound, lies_below,
    spine_ready, term_ready,
};
use crate::laws::shape::{
    enclosed, filled, formed, grown, is_pointer, lemma_grown_chains, lemma_grown_keeps_block,
};
use crate::laws::soundness::chain_ends;
use crate::layout::{cell, ClauseRecord, Layout};
use crate::search::{Limits, may_match, Search};
use crate::store::Store;

verus! {

/// A clause that is ready stays ready when the heap grows.
pub proof fn lemma_clause_ready_grown(
    cells: Seq<HeapEntry>,
    longer: Seq<HeapEntry>,
    record: ClauseRecord,
)
    requires
        formed(cells),
        clause_ready(cells, record),
        grown(cells, longer),
    ensures
        clause_ready(longer, record),
{
    let base = record.base as int;
    let end = record.base + record.length;
    assert(longer[base] == cells[base]);
    if end < cells.len() {
        assert(longer[end] == cells[end]);
    }
    assert forall|at: int| base <= at < end && is_pointer(#[trigger] longer[at]) implies base
        <= longer[at].data < end by {
        assert(longer[at] == cells[at]);
        assert(is_pointer(cells[at]));
    }
    assert forall|at: int| base <= at < end implies #[trigger] alias_leads_to_variable(
        longer,
        at,
    ) by {
        assert(alias_leads_to_variable(cells, at));
        assert(longer[at] == cells[at]);
        if cells[at].tag == HeapTag::Unify {
            assert(longer[cells[at].data as int] == cells[cells[at].data as int]);
        }
    }
    assert forall|j: int| 0 <= j < record.terms.len() implies #[trigger] term_ready(
        longer,
        record,
        j,
    ) by {
        assert(term_ready(cells, record, j));
        lemma_grown_keeps_block(cells, longer, record.terms[j].data as int);
    }
}

impl Layout {
    /// A clause that has been laid out is ready to be copied.
    pub proof fn lemma_put_clause_ready(self, clause: Clause)
        requires
            self.settled(),
            self.put_clause(clause).cells.len() <= usize::MAX,
        ensures
            clause_ready(self.put_clause(clause).cells, self.describe_clause(clause)),
            self.describe_clause(clause).base == self.cells.len(),
            self.describe_clause(clause).base + self.describe_clause(clause).length
                == self.put_clause(clause).cells.len(),
    {
        let done = self.put_clause(clause);
        let record = self.describe_clause(clause);
        self.lemma_put_clause_shaped(clause);
        self.lemma_put_clause_keeps(clause);
        self.lemma_clause_descriptor_bounds(clause);
        assert(record.terms[0] == cell(HeapTag::Reference, self.cells.len() as int));
        assert forall|at: int|
            record.base <= at < record.base + record.length implies #[trigger] alias_leads_to_variable(
            done.cells,
            at,
        ) by {}
        assert forall|j: int| 0 <= j < record.terms.len() implies #[trigger] term_ready(
            done.cells,
            record,
            j,
        ) by {
            let term = record.terms[j];
            assert(block_fits(done.cells, term.data as int));
        }
        assert(term_ready(done.cells, record, 0));
    }

    /// Clauses that have been laid out one after another are all ready to
    /// be copied, and the heap is settled and written throughout.
    pub proof fn lemma_put_clauses_ready(self, clauses: Seq<Clause>, count: nat)
        requires
            self.settled(),
            count <= clauses.len(),
            self.put_clauses(clauses, count).cells.len() <= usize::MAX,
        ensures
            self.put_clauses(clauses, count).settled(),
            grown(self.cells, self.put_clauses(clauses, count).cells),
            filled(
                self.put_clauses(clauses, count).cells,
                self.cells.len() as int,
                self.put_clauses(clauses, count).cells.len() as int,
            ),
            enclosed(
                self.put_clauses(clauses, count).cells,
                self.cells.len() as int,
                self.put_clauses(clauses, count).cells.len() as int,
            ),
            forall|k: int|
                0 <= k < count ==> clause_stored(
                    self.put_clauses(clauses, count).cells,
                    #[trigger] self.describe_clauses(clauses)[k],
                    self.put_clauses(clauses, count).cells.len() as int,
                ),
        decreases count,
    {
        if count > 0 {
            let before = self.put_clauses(clauses, (count - 1) as nat);
            let clause = clauses[count - 1];
            let done = before.put_clause(clause);
            before.lemma_put_clause_keeps(clause);
            self.lemma_put_clauses_ready(clauses, (count - 1) as nat);
            before.lemma_put_clause_shaped(clause);
            before.lemma_put_clause_ready(clause);
            lemma_grown_chains(self.cells, before.cells, done.cells);
            assert forall|at: int| self.cells.len() <= at < done.cells.len() implies (
            #[trigger] done.cells[at]).tag != HeapTag::Uninitialized by {
                if at < before.cells.len() {
                    assert(done.cells[at] == before.cells[at]);
                    assert(before.cells[at].tag != HeapTag::Uninitialized);
                }
            }
            assert forall|at: int|
                self.cells.len() <= at < done.cells.len() && is_pointer(
                    #[trigger] done.cells[at],
                ) implies self.cells.len() <= done.cells[at].data < done.cells.len() by {
                if at < before.cells.len() {
                    assert(done.cells[at] == before.cells[at]);
                    assert(is_pointer(before.cells[at]));
                }
            }
            assert forall|k: int| 0 <= k < count implies clause_stored(
                done.cells,
                #[trigger] self.describe_clauses(clauses)[k],
                done.cells.len() as int,
            ) by {
                let record = self.describe_clauses(clauses)[k];
                if k < count - 1 {
                    assert(clause_stored(before.cells, record, before.cells.len() as int));
                    lemma_clause_ready_grown(before.cells, done.cells, record);
                } else {
                    assert(record == before.describe_clause(clause));
                }
            }
        } else {
            assert(grown(self.cells, self.cells));
        }
    }

    /// Queries that have been laid out one after another have goals that
    /// are blocks within the heap; the heap is settled and written
    /// throughout, and none of their cells points below them.
    pub proof fn lemma_put_queries_ready(self, queries: Seq<Query>, count: nat)
        requires
            self.settled(),
            count <= queries.len(),
            self.put_queries(queries, count).cells.len() <= usize::MAX,
        ensures
            self.put_queries(queries, count).settled(),
            grown(self.cells, self.put_queries(queries, count).cells),
            filled(
                self.put_queries(queries, count).cells,
                self.cells.len() as int,
                self.put_queries(queries, count).cells.len() as int,
            ),
            enclosed(
                self.put_queries(queries, count).cells,
                self.cells.len() as int,
                self.put_queries(queries, count).cells.len() as int,
            ),
            forall|k: int, j: int|
                0 <= k < count && 0 <= j < self.describe_queries(queries)[k].terms.len()
                    ==> goal_ready(
                    self.put_queries(queries, count).cells,
                    #[trigger] self.describe_queries(queries)[k].terms[j],
                    self.cells.len() as int,
                    self.put_queries(queries, count).cells.len() as int,
                ),
        decreases count,
    {
        if count > 0 {
            let before = self.put_queries(queries, (count - 1) as nat);
            let query = queries[count - 1];
            let done = before.put_query(query);
            before.lemma_put_query_keeps(query);
            self.lemma_put_queries_ready(queries, (count - 1) as nat);
            before.lemma_put_query_shaped(query);
            lemma_grown_chains(self.cells, before.cells, done.cells);
            assert forall|at: int| self.cells.len() <= at < done.cells.len() implies (
            #[trigger] done.cells[at]).tag != HeapTag::Uninitialized by {
                if at < before.cells.len() {
                    assert(done.cells[at] == before.cells[at]);
                    assert(before.cells[at].tag != HeapTag::Uninitialized);
                }
            }
            assert forall|at: int|
                self.cells.len() <= at < done.cells.len() && is_pointer(
                    #[trigger] done.cells[at],
                ) implies self.cells.len() <= done.cells[at].data < done.cells.len() by {
                if at < before.cells.len() {
                    assert(done.cells[at] == before.cells[at]);
                    assert(is_pointer(before.cells[at]));
                }
            }
            assert forall|k: int, j: int|
                0 <= k < count && 0 <= j < self.describe_queries(
                    queries,
                )[k].terms.len() implies goal_ready(
                done.cells,
                #[trigger] self.describe_queries(queries)[k].terms[j],
                self.cells.len() as int,
                done.cells.len() as int,
            ) by {
                let term = self.describe_queries(queries)[k].terms[j];
                if k < count - 1 {
                    assert(goal_ready(
                        before.cells,
                        term,
                        self.cells.len() as int,
                        before.cells.len() as int,
                    ));
                    lemma_grown_keeps_block(before.cells, done.cells, term.data as int);
                } else {
                    assert(self.describe_queries(queries)[k] == before.describe_query(query));
                    assert(before.describe_query(query).terms[j] == term);
                    assert(block_fits(done.cells, term.data as int));
                }
            }
        } else {
            assert(grown(self.cells, self.cells));
        }
    }
}

impl Layout {
    /// The descriptors of clauses that have been laid out one after another
    /// hold the subterms of the heads as they stand on the heap.
    pub proof fn lemma_put_clauses_indexed(self, clauses: Seq<Clause>, count: nat)
        requires
            self.settled(),
            count <= clauses.len(),
            self.put_clauses(clauses, count).cells.len() <= usize::MAX,
        ensures
            forall|k: int|
                0 <= k < count ==> clause_indexed(
                    self.put_clauses(clauses, count).cells,
                    #[trigger] self.describe_clauses(clauses)[k],
                ),
        decreases count,
    {
        if count > 0 {
            let before = self.put_clauses(clauses, (count - 1) as nat);
            let clause = clauses[count - 1];
            let done = before.put_clause(clause);
            before.lemma_put_clause_keeps(clause);
            self.lemma_put_clauses_ready(clauses, (count - 1) as nat);
            self.lemma_put_clauses_indexed(clauses, (count - 1) as nat);
            before.lemma_put_clause_shaped(clause);
            before.lemma_clause_descriptor_bounds(clause);
            assert forall|k: int| 0 <= k < count implies clause_indexed(
                done.cells,
                #[trigger] self.describe_clauses(clauses)[k],
            ) by {
                let record = self.describe_clauses(clauses)[k];
                if k < count - 1 {
                    assert(clause_stored(before.cells, record, before.cells.len() as int));
                    lemma_indexed_kept(before.cells, done.cells, record, before.cells.len() as int);
                } else {
                    assert(record == before.describe_clause(clause));
                }
            }
        }
    }
}

impl Layout {
    /// The cells of the variables of queries that have been laid out are
    /// cells of the heap.
    pub proof fn lemma_all_query_variables_are_located(self, queries: Seq<Query>, count: nat)
        requires
            self.settled(),
            count <= queries.len(),
            self.put_queries(queries, count).cells.len() <= usize::MAX,
        ensures
            forall|j: int, i: int|
                0 <= j < count && 0 <= i < self.describe_all_variables(queries)[j].len() ==> (
                #[trigger] self.describe_all_variables(queries)[j][i]).1 < self.put_queries(
                    queries,
                    count,
                ).cells.len(),
        decreases count,
    {
        if count > 0 {
            let before = self.put_queries(queries, (count - 1) as nat);
            let query = queries[count - 1];
            let done = before.put_query(query);
            before.lemma_put_query_keeps(query);
            self.lemma_put_queries_ready(queries, (count - 1) as nat);
            self.lemma_all_query_variables_are_located(queries, (count - 1) as nat);
            before.lemma_query_variables_are_located(query);
            assert forall|j: int, i: int|
                0 <= j < count && 0 <= i < self.describe_all_variables(
                    queries,
                )[j].len() implies (#[trigger] self.describe_all_variables(queries)[j][i]).1
                < done.cells.len() by {
                if j == count - 1 {
                    assert(self.describe_all_variables(queries)[j] == before.describe_variables(
                        query,
                    ));
                    assert(before.describe_variables(query)[i].1 < done.cells.len());
                }
            }
        }
    }
}

/// The state that a search of a compiled program starts from: the heap as
/// the compiler left it, an empty trail, and the spines that the compiler
/// made for the queries.
pub open spec fn compiled_search(
    start: Layout,
    clauses: Seq<Clause>,
    queries: Seq<Query>,
) -> Search {
    let stored = start.put_clauses(clauses, clauses.len());
    let done = stored.put_queries(queries, queries.len());
    Search {
        store: Store { cells: done.cells, trail: Seq::empty() },
        spines: initial_spines(
            stored.describe_queries(queries),
            done.cells.len() as usize,
            0,
            clauses.len(),
        ),
        answered: false,
    }
}

/// A search of a program compiled onto an empty heap starts sound, if the
/// stack has room for the spines of its queries. So it never reports a
/// violation: what the compiler leaves is what the search takes.
pub proof fn lemma_compiled_search_is_sound(
    start: Layout,
    clauses: Seq<Clause>,
    queries: Seq<Query>,
)
    requires
        start.cells.len() == 0,
        start.put_clauses(clauses, clauses.len()).put_queries(queries, queries.len()).cells.len()
            <= usize::MAX,
        clauses.len() <= usize::MAX,
    ensures
        compiled_search(start, clauses, queries).sound(
            start.describe_clauses(clauses),
            start.put_clauses(clauses, clauses.len()).cells.len() as int,
        ),
{
    let stored = start.put_clauses(clauses, clauses.len());
    let done = stored.put_queries(queries, queries.len());
    let floor = stored.cells.len() as int;
    let records = start.describe_clauses(clauses);
    let state = compiled_search(start, clauses, queries);
    let cells = done.cells;
    assert(formed(start.cells));
    assert(aliases_lead_to_variables(start.cells));
    start.lemma_put_clauses_keeps(clauses, clauses.len());
    stored.lemma_put_queries_keeps_length(queries, queries.len());
    start.lemma_put_clauses_ready(clauses, clauses.len());
    stored.lemma_put_queries_ready(queries, queries.len());
    lemma_grown_chains(start.cells, stored.cells, cells);
    // The store.
    assert forall|at: int| 0 <= at < cells.len() implies (#[trigger] cells[at]).tag
        != HeapTag::Uninitialized by {
        if at < floor {
            assert(cells[at] == stored.cells[at]);
            assert(stored.cells[at].tag != HeapTag::Uninitialized);
        }
    }
    assert forall|at: int| 0 <= at < cells.len() implies #[trigger] chain_ends(cells, at) by {
        assert(alias_leads_to_variable(cells, at));
    }
    assert(state.store.sound(floor));
    // The clauses.
    assert forall|k: int| 0 <= k < records.len() implies #[trigger] clause_stored(
        cells,
        records[k],
        floor,
    ) by {
        assert(clause_stored(stored.cells, records[k], floor));
        lemma_clause_ready_grown(stored.cells, cells, records[k]);
    }
    // The spines.
    lemma_fresh_marks(state.store, floor);
    let asked = stored.describe_queries(queries);
    assert forall|k: int| 0 <= k < state.spines.len() implies spine_ready(
        state.store,
        #[trigger] state.spines[k],
        records.len(),
        floor,
    ) by {
        let spine = state.spines[k];
        let query = asked[asked.len() - 1 - k];
        assert(spine == initial_spine(query, cells.len() as usize, 0, clauses.len()));
        assert forall|g: int| 0 <= g < spine.goals.len() implies goal_ready(
            cells,
            #[trigger] spine.goals[g],
            floor,
            spine.base as int,
        ) by {
            assert(goal_ready(
                cells,
                asked[asked.len() - 1 - k].terms[g],
                floor,
                cells.len() as int,
            ));
        }
    }
    assert forall|j: int, k: int| 0 <= j < k < state.spines.len() implies lies_below(
        #[trigger] state.spines[j],
        #[trigger] state.spines[k],
    ) by {}
    assert forall|k: int| 0 <= k < state.spines.len() implies (
    #[trigger] state.spines[k]).num_unified_clauses <= state.spines[k].unifiable_clauses.len()
        <= records.len() by {}
}

/// A search of a program compiled onto an empty heap starts with no clause
/// left out that is worth trying.
pub proof fn lemma_compiled_search_is_complete(
    start: Layout,
    clauses: Seq<Clause>,
    queries: Seq<Query>,
)
    requires
        start.cells.len() == 0,
        start.put_clauses(clauses, clauses.len()).put_queries(queries, queries.len()).cells.len()
            <= usize::MAX,
        clauses.len() <= usize::MAX,
    ensures
        complete(compiled_search(start, clauses, queries), start.describe_clauses(clauses)),
{
    let stored = start.put_clauses(clauses, clauses.len());
    let done = stored.put_queries(queries, queries.len());
    let records = start.describe_clauses(clauses);
    let state = compiled_search(start, clauses, queries);
    assert(formed(start.cells));
    assert(aliases_lead_to_variables(start.cells));
    stored.lemma_put_queries_keeps_length(queries, queries.len());
    start.lemma_put_clauses_ready(clauses, clauses.len());
    start.lemma_put_clauses_indexed(clauses, clauses.len());
    stored.lemma_put_queries_ready(queries, queries.len());
    assert forall|k: int| 0 <= k < records.len() implies clause_indexed(
        state.store.cells,
        #[trigger] records[k],
    ) by {
        assert(clause_stored(stored.cells, records[k], stored.cells.len() as int));
        lemma_indexed_kept(stored.cells, done.cells, records[k], stored.cells.len() as int);
    }
    let asked = stored.describe_queries(queries);
    assert forall|s: int| 0 <= s < state.spines.len() implies spine_complete(
        snapshot(state, state.spines[s]).cells,
        #[trigger] state.spines[s],
        records,
    ) by {
        let spine = state.spines[s];
        assert(spine == initial_spine(
            asked[asked.len() - 1 - s],
            done.cells.len() as usize,
            0,
            clauses.len(),
        ));
        if spine.goals.len() > 0 {
            assert forall|c: int|
                0 <= c < records.len() && #[trigger] left_out(spine, c) implies !may_match(
                snapshot(state, spine).cells,
                records[c],
                spine.goals[0],
            ) by {
                assert(spine.unifiable_clauses[c] == c);
            }
        }
    }
}

/// However long the search of a program compiled onto an empty heap goes
/// on, it is sound and leaves out no clause that is worth trying.
pub proof fn lemma_compiled_search_stays_sound(
    start: Layout,
    clauses: Seq<Clause>,
    queries: Seq<Query>,
    limits: Limits,
    steps: nat,
)
    requires
        start.cells.len() == 0,
        start.put_clauses(clauses, clauses.len()).put_queries(queries, queries.len()).cells.len()
            <= usize::MAX,
        clauses.len() <= usize::MAX,
    ensures
        compiled_search(start, clauses, queries).advance(
            start.describe_clauses(clauses),
            limits,
            steps,
        ).sound(
            start.describe_clauses(clauses),
            start.put_clauses(clauses, clauses.len()).cells.len() as int,
        ),
        complete(
            compiled_search(start, clauses, queries).advance(
                start.describe_clauses(clauses),
                limits,
                steps,
            ),
            start.describe_clauses(clauses),
        ),
    decreases steps,
{
    let records = start.describe_clauses(clauses);
    let floor = start.put_clauses(clauses, clauses.len()).cells.len() as int;
    let state = compiled_search(start, clauses, queries);
    if steps == 0 {
        lemma_compiled_search_is_sound(start, clauses, queries);
        lemma_compiled_search_is_complete(start, clauses, queries);
    } else {
        lemma_compiled_search_stays_sound(start, clauses, queries, limits, (steps - 1) as nat);
        let before = state.advance(records, limits, (steps - 1) as nat);
        lemma_step_keeps_sound(before, records, limits, floor);
        lemma_step_keeps_complete(before, records, limits, floor);
    }
}

} // verus!
