//! The resolution engine: answers a query by depth-first search over the
//! compiled clauses, with backtracking.

use vstd::prelude::*;
use crate::answer::{
    Binding, bindings_view, read_bindings, read_term, read_value, read_variables, Value, ValueView,
};
use crate::ast::Program;
use crate::block::{get_subterms, read_subterm, subterm, subterms};
use crate::compiler::{
    ClauseDescriptor, Compiler, QueryDescriptor, QueryVariable, Spine, SpineRecord, variables_view,
};
use crate::error::EngineError;
use crate::heap::{Heap, HeapEntry, HeapIndex, HeapTag};
use crate::laws::compiled_laws::{compiled_search, lemma_compiled_search_is_sound};
use crate::laws::layout_shape::aliases_lead_to_variables;
use crate::laws::naming::{
    held_above, lemma_read_bindings_meets_no_violation, lemma_read_meets_no_violation,
    lemma_step_keeps_level, lemma_step_keeps_named, named,
};
use crate::laws::search_laws::{lemma_step_makes_progress, potential, spines_wf};
use crate::laws::search_soundness::lemma_step_keeps_sound;
use crate::laws::shape::formed;
use crate::laws::unify_laws::lemma_unify_can_be_taken_back;
use crate::layout::{ClauseRecord, Layout, QueryRecord};
use crate::search::{
    candidates, candidates_among, compatible, is_ground, Limits, may_match, Progress, relocate,
    relocate_all, renamed, Search,
};
use crate::store::{resolve, resolve_at, Store, unwind_trail};
use crate::symbols::SymbolTable;
use crate::unify::unify;

verus! {

/// The descriptors, as plain values.
pub open spec fn clause_records(clauses: Seq<ClauseDescriptor>) -> Seq<ClauseRecord> {
    Seq::new(clauses.len(), |i: int| clauses[i]@)
}

/// The descriptors of queries, as plain values.
pub open spec fn query_records(queries: Seq<QueryDescriptor>) -> Seq<QueryRecord> {
    Seq::new(queries.len(), |i: int| queries[i]@)
}

/// The spines, as plain values.
pub open spec fn spine_records(spines: Seq<Spine>) -> Seq<SpineRecord> {
    Seq::new(spines.len(), |i: int| spines[i]@)
}

/// Puts heap and trail back to the marks: takes back the bindings recorded
/// at or above `trail_top` and drops the cells at or above `base`.
fn restore(heap: &mut Heap, trail: &mut Vec<HeapIndex>, base: HeapIndex, trail_top: usize)
    ensures
        (Store { cells: final(heap)@, trail: final(trail)@ }) == (Store {
            cells: old(heap)@,
            trail: old(trail)@,
        }).restore(base as int, trail_top as int),
{
    unwind_trail(heap, trail, trail_top);
    heap.truncate(base);
}

/// A cell of a clause as it reads in a copy of the clause that starts at
/// `to`.
fn relocate_entry(entry: HeapEntry, base: HeapIndex, length: usize, to: HeapIndex) -> (moved:
    Option<HeapEntry>)
    requires
        to + length <= usize::MAX,
    ensures
        moved == relocate(entry, base as int, length as int, to as int),
{
    match entry.tag {
        HeapTag::Variable | HeapTag::Unify | HeapTag::Reference => {
            if base <= entry.data && entry.data - base < length {
                Some(HeapEntry::new(entry.tag, entry.data - base + to))
            } else {
                None
            }
        },
        _ => Some(entry),
    }
}

/// Appends a fresh copy of the clause to the heap and returns where the
/// copy starts.
fn copy_clause(heap: &mut Heap, clause: &ClauseDescriptor, heap_limit: usize) -> (copied:
    Result<HeapIndex, EngineError>)
    ensures
        match copied {
            Ok(to) => to == old(heap)@.len() && renamed(old(heap)@, clause@, heap_limit as int)
                == Ok::<Seq<HeapEntry>, EngineError>(final(heap)@),
            Err(error) => renamed(old(heap)@, clause@, heap_limit as int) == Err::<
                Seq<HeapEntry>,
                EngineError,
            >(error),
        },
        old(heap)@.len() <= final(heap)@.len(),
        final(heap)@.take(old(heap)@.len() as int) == old(heap)@,
{
    let to = heap.len();
    assert(heap@.take(to as int) =~= heap@);
    if clause.base > to || clause.length > to - clause.base {
        return Err(EngineError::InternalInvariantViolation);
    }
    if clause.length > heap_limit || to > heap_limit - clause.length {
        return Err(EngineError::ResourceExhausted);
    }
    let ghost source = heap@.subrange(clause.base as int, clause.base + clause.length);
    let mut i: usize = 0;
    while i < clause.length
        invariant
            i <= clause.length,
            to == old(heap)@.len(),
            clause.base + clause.length <= to,
            to + clause.length <= heap_limit,
            source == old(heap)@.subrange(clause.base as int, clause.base + clause.length),
            heap@.len() == to + i,
            heap@.take(to as int) == old(heap)@,
            relocate_all(
                source,
                i as nat,
                clause.base as int,
                clause.length as int,
                to as int,
            ) == Some(heap@.skip(to as int)),
        decreases clause.length - i,
    {
        let entry = heap.read(clause.base + i);
        assert(entry == source[i as int]);
        let ghost before = heap@;
        match relocate_entry(entry, clause.base, clause.length, to) {
            Some(moved) => {
                let at = heap.allocate(1);
                heap.write(at, moved);
                assert(heap@ =~= before.push(moved));
                assert(heap@.skip(to as int) =~= before.skip(to as int).push(moved));
                assert(heap@.take(to as int) =~= before.take(to as int));
            },
            None => {
                proof {
                    lemma_relocate_all_stops(
                        source,
                        (i + 1) as nat,
                        clause.length as nat,
                        clause.base as int,
                        clause.length as int,
                        to as int,
                    );
                }
                return Err(EngineError::InternalInvariantViolation);
            },
        }
        i += 1;
    }
    assert(heap@ =~= old(heap)@ + heap@.skip(to as int));
    Ok(to)
}

/// Once an entry points out of the clause, there is no copy, however many
/// entries are taken.
pub proof fn lemma_relocate_all_stops(
    entries: Seq<HeapEntry>,
    stopped: nat,
    count: nat,
    base: int,
    length: int,
    to: int,
)
    requires
        stopped <= count,
        relocate_all(entries, stopped, base, length, to) is None,
    ensures
        relocate_all(entries, count, base, length, to) is None,
    decreases count,
{
    if count > stopped {
        lemma_relocate_all_stops(entries, stopped, (count - 1) as nat, base, length, to);
    }
}

/// The references of a clause to its head and goals as they read in a copy
/// of the clause that starts at `to`.
fn relocate_terms(clause: &ClauseDescriptor, to: HeapIndex) -> (moved: Option<Vec<HeapEntry>>)
    requires
        to + clause.length <= usize::MAX,
    ensures
        match moved {
            Some(terms) => relocate_all(
                clause.terms@,
                clause.terms@.len(),
                clause.base as int,
                clause.length as int,
                to as int,
            ) == Some(terms@),
            None => relocate_all(
                clause.terms@,
                clause.terms@.len(),
                clause.base as int,
                clause.length as int,
                to as int,
            ) is None,
        },
{
    let mut terms = Vec::new();
    let mut i: usize = 0;
    while i < clause.terms.len()
        invariant
            i <= clause.terms@.len(),
            to + clause.length <= usize::MAX,
            relocate_all(
                clause.terms@,
                i as nat,
                clause.base as int,
                clause.length as int,
                to as int,
            ) == Some(terms@),
        decreases clause.terms@.len() - i,
    {
        match relocate_entry(clause.terms[i], clause.base, clause.length, to) {
            Some(moved) => {
                terms.push(moved);
            },
            None => {
                proof {
                    lemma_relocate_all_stops(
                        clause.terms@,
                        (i + 1) as nat,
                        clause.terms@.len(),
                        clause.base as int,
                        clause.length as int,
                        to as int,
                    );
                }
                return None;
            },
        }
        i += 1;
    }
    Some(terms)
}

/// Whether the clause is worth trying on the goal whose functor is
/// `functor` and whose arguments are `wanted`.
fn clause_may_match(
    heap: &Heap,
    clause: &ClauseDescriptor,
    goal: HeapEntry,
    functor: HeapEntry,
    wanted: &Vec<HeapEntry>,
) -> (worth: bool)
    requires
        goal.data < heap@.len(),
        functor == subterm(heap@, goal.data + 1),
        wanted@ == subterms(heap@, goal),
    ensures
        worth == may_match(heap@, clause@, goal),
{
    if clause.base >= heap.len() - 1 {
        return false;
    }
    if heap.read(clause.base).data != heap.read(goal.data).data {
        return false;
    }
    let named = heap.read(clause.base + 1);
    if is_ground_entry(named) && is_ground_entry(functor) && named != functor {
        return false;
    }
    if clause.head_subterms.len() != wanted.len() {
        return false;
    }
    let mut j: usize = 0;
    while j < wanted.len()
        invariant
            j <= wanted@.len(),
            clause.head_subterms@.len() == wanted@.len(),
            wanted@ == subterms(heap@, goal),
            functor == subterm(heap@, goal.data + 1),
            clause.base + 1 < heap@.len(),
            goal.data < heap@.len(),
            heap@[clause.base as int].data == heap@[goal.data as int].data,
            compatible(heap@[clause.base + 1], functor),
            forall|k: int| 0 <= k < j ==> compatible(#[trigger] clause.head_subterms@[k], wanted@[k]),
        decreases wanted@.len() - j,
    {
        if is_ground_entry(clause.head_subterms[j]) && is_ground_entry(wanted[j])
            && clause.head_subterms[j] != wanted[j] {
            assert(!compatible(clause.head_subterms@[j as int], wanted@[j as int]));
            return false;
        }
        j += 1;
    }
    true
}

/// Whether an entry is ground: a constant or a number.
fn is_ground_entry(entry: HeapEntry) -> (ground: bool)
    ensures
        ground == is_ground(entry),
{
    entry.tag == HeapTag::Constant || entry.tag == HeapTag::Number
}

/// The clauses to try on the first of `goals`.
fn find_candidates(heap: &Heap, clauses: &Vec<ClauseDescriptor>, goals: &Vec<HeapEntry>) -> (found:
    Result<Vec<usize>, EngineError>)
    ensures
        match found {
            Ok(indices) => candidates(heap@, clause_records(clauses@), goals@) == Ok::<
                Seq<usize>,
                EngineError,
            >(indices@),
            Err(error) => candidates(heap@, clause_records(clauses@), goals@) == Err::<
                Seq<usize>,
                EngineError,
            >(error),
        },
{
    let mut indices = Vec::new();
    if goals.len() == 0 {
        return Ok(indices);
    }
    let goal = goals[0];
    let wanted = match get_subterms(heap, goal) {
        Ok(wanted) => wanted,
        Err(error) => {
            return Err(error);
        },
    };
    proof {
        heap.lemma_len_fits();
    }
    let functor = match read_subterm(heap, goal.data + 1) {
        Ok(functor) => functor,
        Err(error) => {
            return Err(error);
        },
    };
    let mut i: usize = 0;
    while i < clauses.len()
        invariant
            i <= clauses@.len(),
            goal.data < heap@.len(),
            functor == subterm(heap@, goal.data + 1),
            wanted@ == subterms(heap@, goal),
            indices@ == candidates_among(heap@, clause_records(clauses@), goal, i as nat),
        decreases clauses@.len() - i,
    {
        if clause_may_match(heap, &clauses[i], goal, functor, &wanted) {
            indices.push(i);
        }
        i += 1;
    }
    Ok(indices)
}

/// A copy of `entries` from position `from` on.
fn copy_tail(entries: &Vec<HeapEntry>, from: usize, onto: &mut Vec<HeapEntry>)
    requires
        from <= entries@.len(),
    ensures
        final(onto)@ == old(onto)@ + entries@.skip(from as int),
{
    let mut i = from;
    assert(onto@ =~= old(onto)@ + entries@.subrange(from as int, i as int));
    while i < entries.len()
        invariant
            from <= i <= entries@.len(),
            onto@ == old(onto)@ + entries@.subrange(from as int, i as int),
        decreases entries@.len() - i,
    {
        onto.push(entries[i]);
        i += 1;
        assert(onto@ =~= old(onto)@ + entries@.subrange(from as int, i as int));
    }
    assert(entries@.subrange(from as int, i as int) =~= entries@.skip(from as int));
}

/// Answers the queries of a compiled program, one answer at a call.
pub struct Engine {
    heap: Heap,
    trail: Vec<HeapIndex>,
    symbol_table: SymbolTable,
    clauses: Vec<ClauseDescriptor>,
    queries: Vec<QueryDescriptor>,
    query_variables: Vec<Vec<QueryVariable>>,
    /// Length of the heap when the search started.
    query_end: HeapIndex,
    spines: Vec<Spine>,
    limits: Limits,
    answered: bool,
}

impl Engine {
    /// The state of the search.
    pub closed spec fn state(&self) -> Search {
        Search {
            store: Store { cells: self.heap@, trail: self.trail@ },
            spines: spine_records(self.spines@),
            answered: self.answered,
        }
    }

    /// The clauses that the search draws on.
    pub closed spec fn program(&self) -> Seq<ClauseRecord> {
        clause_records(self.clauses@)
    }

    /// The bounds that the search is held to.
    pub closed spec fn bounds(&self) -> Limits {
        self.limits
    }

    /// The names of the atoms, by id.
    pub closed spec fn symbols(&self) -> Seq<Seq<char>> {
        self.symbol_table@
    }

    /// The descriptors of the queries that were compiled.
    pub closed spec fn asked(&self) -> Seq<QueryDescriptor> {
        self.queries@
    }

    /// The variables of the queries that were compiled, each with the cell
    /// of its first occurrence.
    pub closed spec fn asked_variables(&self) -> Seq<Seq<(Seq<char>, HeapIndex)>> {
        Seq::new(self.query_variables@.len(), |i: int| variables_view(self.query_variables@[i]@))
    }

    /// The length that the heap had when the search started: the compiled
    /// program lies below it.
    pub closed spec fn started_at(&self) -> int {
        self.query_end as int
    }

    /// The stack of spines is as it should be: see `spines_wf`.
    pub closed spec fn wf(&self) -> bool {
        spines_wf(self.state().spines, self.program().len(), self.state().store.cells.len())
    }

    /// Whether the search is in a state from which it meets nothing that is
    /// not what it should be, with the clauses lying below `floor`; every
    /// constant on the heap has a name; and the queries are still on the
    /// heap, with the cells of their variables.
    pub open spec fn sound_above(&self, floor: int) -> bool {
        &&& self.state().sound(self.program(), floor)
        &&& named(self.state().store.cells, self.symbols().len())
        &&& held_above(self.state(), self.started_at())
        &&& forall|q: int, i: int|
            0 <= q < self.asked_variables().len() && 0 <= i < self.asked_variables()[q].len() ==> (
            #[trigger] self.asked_variables()[q][i]).1 < self.started_at()
    }

    /// Whether the search is in a state from which it meets nothing that is
    /// not what it should be. A search of a compiled program starts in such
    /// a state and stays in one.
    pub open spec fn sound(&self) -> bool {
        exists|floor: int| self.sound_above(floor)
    }

    /// How far the search is from its end, at most.
    pub open spec fn remaining(&self) -> nat {
        potential(self.state().spines, self.program().len() + 2, self.bounds().heap as nat)
    }

    /// An engine for what `compiler` has compiled, held to `limits`. It
    /// starts from the spines that the compiler has made, one for each
    /// query. There is none if the spines are not as they should be
    /// (`InternalInvariantViolation`): if one of them has tried more clauses
    /// than it holds or holds more than there are, or has its heap mark
    /// below that of the spine before it, or if the mark of the last lies
    /// beyond the heap.
    pub fn new(compiler: Compiler, limits: Limits) -> (made: Result<Engine, EngineError>)
        ensures
            match made {
                Ok(engine) => {
                    &&& engine.wf()
                    &&& spines_wf(
                        compiler.spine_records(),
                        compiler.clauses@.len(),
                        compiler.heap@.len(),
                    )
                    &&& engine.state() == (Search {
                        store: Store { cells: compiler.heap@, trail: compiler.trail@ },
                        spines: compiler.spine_records(),
                        answered: false,
                    })
                    &&& engine.program() == compiler.clause_records()
                    &&& engine.bounds() == limits
                    &&& engine.symbols() == compiler.symbol_table@
                    &&& engine.asked() == compiler.queries@
                    &&& engine.asked_variables() == compiler.variable_records()
                    &&& engine.started_at() == compiler.heap@.len()
                },
                Err(error) => {
                    &&& !spines_wf(
                        compiler.spine_records(),
                        compiler.clauses@.len(),
                        compiler.heap@.len(),
                    )
                    &&& error == EngineError::InternalInvariantViolation
                },
            },
    {
        let clause_count = compiler.clauses.len();
        let query_end = compiler.heap.len();
        let count = compiler.spines.len();
        let mut k: usize = 0;
        while k < count
            invariant
                k <= count,
                count == compiler.spines@.len(),
                clause_count == compiler.clauses@.len(),
                forall|j: int|
                    0 <= j < k ==> (#[trigger] compiler.spine_records()[j]).num_unified_clauses
                        <= compiler.spine_records()[j].unifiable_clauses.len() <= clause_count,
                forall|i: int, j: int|
                    0 <= i < j < k ==> (#[trigger] compiler.spine_records()[i]).base <= (
                    #[trigger] compiler.spine_records()[j]).base,
            decreases count - k,
        {
            let spine = &compiler.spines[k];
            assert(compiler.spine_records()[k as int] == spine@);
            if spine.num_unified_clauses > spine.unifiable_clauses.len()
                || spine.unifiable_clauses.len() > clause_count {
                return Err(EngineError::InternalInvariantViolation);
            }
            if k > 0 {
                assert(compiler.spine_records()[k - 1] == compiler.spines@[k - 1]@);
                if compiler.spines[k - 1].base > spine.base {
                    return Err(EngineError::InternalInvariantViolation);
                }
            }
            k += 1;
        }
        if count > 0 {
            assert(compiler.spine_records().last() == compiler.spines@[count - 1]@);
            if compiler.spines[count - 1].base > query_end {
                return Err(EngineError::InternalInvariantViolation);
            }
        }
        let engine = Engine {
            heap: compiler.heap,
            trail: compiler.trail,
            symbol_table: compiler.symbol_table,
            clauses: compiler.clauses,
            queries: compiler.queries,
            query_variables: compiler.query_variables,
            query_end,
            spines: compiler.spines,
            limits,
            answered: false,
        };
        assert(engine.state().spines =~= compiler.spine_records());
        assert(engine.program() =~= compiler.clause_records());
        assert(engine.asked_variables() =~= compiler.variable_records());
        Ok(engine)
    }

    /// An engine for `program`, compiled onto an empty heap of its own and
    /// held to `limits`. The search that it starts is sound.
    pub fn start(program: Program, limits: Limits) -> (engine: Engine)
        ensures
            engine.wf(),
            engine.sound(),
            engine.bounds() == limits,
            engine.state() == compiled_search(
                Layout::empty(),
                program.clauses@,
                program.queries@,
            ),
            engine.program() == Layout::empty().describe_clauses(program.clauses@),
            engine.symbols() == Layout::empty().put_clauses(
                program.clauses@,
                program.clauses@.len(),
            ).put_queries(program.queries@, program.queries@.len()).symbols,
            query_records(engine.asked()) == Layout::empty().put_clauses(
                program.clauses@,
                program.clauses@.len(),
            ).describe_queries(program.queries@),
            engine.asked_variables() == Layout::empty().put_clauses(
                program.clauses@,
                program.clauses@.len(),
            ).describe_all_variables(program.queries@),
            engine.started_at() == Layout::empty().put_clauses(
                program.clauses@,
                program.clauses@.len(),
            ).put_queries(program.queries@, program.queries@.len()).cells.len(),
    {
        let mut compiler = Compiler::new();
        let ghost start = compiler.layout();
        let ghost clauses = program.clauses@;
        let ghost queries = program.queries@;
        assert(start == Layout::empty());
        assert(program.clauses.len() == clauses.len());
        compiler.compile(program);
        proof {
            compiler.heap.lemma_len_fits();
            compiler.symbol_table.lemma_len_fits();
            assert(compiler.clause_records() =~= start.describe_clauses(clauses));
            assert(compiler.query_records() =~= start.put_clauses(
                clauses,
                clauses.len(),
            ).describe_queries(queries));
            assert(compiler.spine_records() =~= compiled_search(start, clauses, queries).spines);
            assert(compiler.trail@ =~= Seq::<HeapIndex>::empty());
            assert(compiler.variable_records() =~= start.put_clauses(
                clauses,
                clauses.len(),
            ).describe_all_variables(queries));
            assert(compiler.clauses@.len() == clauses.len());
            assert(compiler.spines@.len() == queries.len());
            lemma_compiled_search_is_sound(start, clauses, queries);
            let stored = start.put_clauses(clauses, clauses.len());
            stored.lemma_put_queries_keeps_length(queries, queries.len());
            start.lemma_put_clauses_keeps(clauses, clauses.len());
            assert(start.lettered());
            start.lemma_put_clauses_lettered(clauses, clauses.len());
            stored.lemma_put_queries_lettered(queries, queries.len());
            assert(formed(start.cells));
            assert(aliases_lead_to_variables(start.cells));
            start.lemma_put_clauses_ready(clauses, clauses.len());
            stored.lemma_all_query_variables_are_located(queries, queries.len());
        }
        let query_end = compiler.heap.len();
        let engine = Engine {
            heap: compiler.heap,
            trail: compiler.trail,
            symbol_table: compiler.symbol_table,
            clauses: compiler.clauses,
            queries: compiler.queries,
            query_variables: compiler.query_variables,
            query_end,
            spines: compiler.spines,
            limits,
            answered: false,
        };
        proof {
            let state = compiled_search(start, clauses, queries);
            assert(engine.state().spines =~= compiler.spine_records());
            assert(engine.program() =~= compiler.clause_records());
            assert(engine.asked_variables() =~= compiler.variable_records());
            assert(query_records(engine.asked()) =~= compiler.query_records());
            assert(engine.state() =~= state);
            assert forall|k: int| 0 <= k < state.spines.len() implies (
            #[trigger] state.spines[k]).base >= engine.started_at() by {}
            let floor = start.put_clauses(clauses, clauses.len()).cells.len() as int;
            assert(engine.sound_above(floor));
        }
        engine
    }

    /// The heap as the search has left it.
    pub fn heap(&self) -> (heap: &Heap)
        ensures
            heap@ == self.state().store.cells,
    {
        &self.heap
    }

    /// The names of the atoms.
    pub fn symbol_table(&self) -> (table: &SymbolTable)
        ensures
            table@ == self.symbols(),
    {
        &self.symbol_table
    }

    /// The descriptors of the queries that were compiled, first to last.
    /// The search answers them in this order.
    pub fn queries(&self) -> (queries: &Vec<QueryDescriptor>)
        ensures
            queries@ == self.asked(),
    {
        &self.queries
    }

    /// The term that the cell at `at` stands for under the bindings made so
    /// far, read to `depth` blocks deep. After an answer has been found, the
    /// goals of the query read back in this way are the answer.
    pub fn read(&self, at: HeapIndex, depth: usize) -> (read: Result<Value, EngineError>)
        ensures
            match read {
                Ok(value) => read_value(
                    self.state().store.cells,
                    self.symbols(),
                    at as int,
                    depth as nat,
                ) == Ok::<ValueView, EngineError>(value@),
                Err(error) => read_value(
                    self.state().store.cells,
                    self.symbols(),
                    at as int,
                    depth as nat,
                ) == Err::<ValueView, EngineError>(error),
            },
            self.sound() && at < self.state().store.cells.len() ==> read != Err::<
                Value,
                EngineError,
            >(EngineError::InternalInvariantViolation),
    {
        proof {
            if self.sound() && at < self.heap@.len() {
                let floor = choose|floor: int| self.sound_above(floor);
                lemma_read_meets_no_violation(
                    self.state().store,
                    self.symbols(),
                    at as int,
                    depth as nat,
                    floor,
                );
            }
        }
        read_term(&self.heap, &self.symbol_table, at, depth)
    }

    /// The answer to the query with number `query`: the term that each of
    /// its variables stands for under the bindings made so far, read to
    /// `depth` blocks deep, in the order in which the variables are first
    /// met in the query. There is no query with a number that is not below
    /// the number of queries (`InternalInvariantViolation`).
    pub fn bindings(&self, query: usize, depth: usize) -> (read: Result<Vec<Binding>, EngineError>)
        ensures
            query >= self.asked_variables().len() ==> read == Err::<Vec<Binding>, EngineError>(
                EngineError::InternalInvariantViolation,
            ),
            query < self.asked_variables().len() ==> match read {
                Ok(bindings) => read_bindings(
                    self.state().store.cells,
                    self.symbols(),
                    self.asked_variables()[query as int],
                    self.asked_variables()[query as int].len(),
                    depth as nat,
                ) == Ok::<Seq<(Seq<char>, ValueView)>, EngineError>(bindings_view(bindings@)),
                Err(error) => read_bindings(
                    self.state().store.cells,
                    self.symbols(),
                    self.asked_variables()[query as int],
                    self.asked_variables()[query as int].len(),
                    depth as nat,
                ) == Err::<Seq<(Seq<char>, ValueView)>, EngineError>(error),
            },
            self.sound() && query < self.asked_variables().len() ==> read != Err::<
                Vec<Binding>,
                EngineError,
            >(EngineError::InternalInvariantViolation),
    {
        if query >= self.query_variables.len() {
            return Err(EngineError::InternalInvariantViolation);
        }
        proof {
            if self.sound() {
                let floor = choose|floor: int| self.sound_above(floor);
                let variables = self.asked_variables()[query as int];
                assert forall|i: int| 0 <= i < variables.len() implies (#[trigger] variables[i]).1
                    < self.state().store.cells.len() by {
                    assert(self.asked_variables()[query as int][i].1 < self.started_at());
                }
                lemma_read_bindings_meets_no_violation(
                    self.state().store,
                    self.symbols(),
                    variables,
                    variables.len(),
                    depth as nat,
                    floor,
                );
            }
        }
        read_variables(&self.heap, &self.symbol_table, &self.query_variables[query], depth)
    }

    /// The entry that the term at `at` stands for under the bindings made
    /// so far: the entry of the cell it resolves to, if it resolves.
    pub fn value_at(&self, at: HeapIndex) -> (value: Option<HeapEntry>)
        ensures
            value == match resolve(
                self.state().store.cells,
                at as int,
                self.state().store.cells.len(),
            ) {
                Some(end) => Some(self.state().store.cells[end]),
                None => None,
            },
    {
        match resolve_at(&self.heap, at) {
            Some(end) => Some(self.heap.read(end)),
            None => None,
        }
    }

    /// Gives up the spine on top and puts heap and trail back to where they
    /// were when it was made.
    fn backtrack(&mut self)
        requires
            old(self).wf(),
            old(self).state().spines.len() > 0,
        ensures
            final(self).state() == old(self).state().backtrack(),
            final(self).program() == old(self).program(),
            final(self).bounds() == old(self).bounds(),
            final(self).symbols() == old(self).symbols(),
            final(self).asked() == old(self).asked(),
            final(self).asked_variables() == old(self).asked_variables(),
            final(self).started_at() == old(self).started_at(),
    {
        let ghost spines = self.state().spines;
        let top = self.spines.pop().unwrap();
        assert(spines.last() == top@);
        restore(&mut self.heap, &mut self.trail, top.base, top.trail_top);
        self.answered = false;
        assert(self.state().spines =~= spines.drop_last());
    }

    /// One step of the search.
    pub fn step(&mut self) -> (progress: Result<Progress, EngineError>)
        requires
            old(self).wf(),
        ensures
            final(self).wf(),
            (final(self).state(), progress) == old(self).state().step(
                old(self).program(),
                old(self).bounds(),
            ),
            progress == Ok::<Progress, EngineError>(Progress::Searching) ==> final(self).remaining()
                < old(self).remaining(),
            old(self).sound() ==> final(self).sound() && progress != Err::<Progress, EngineError>(
                EngineError::InternalInvariantViolation,
            ),
            final(self).program() == old(self).program(),
            final(self).bounds() == old(self).bounds(),
            final(self).symbols() == old(self).symbols(),
            final(self).asked() == old(self).asked(),
            final(self).asked_variables() == old(self).asked_variables(),
            final(self).started_at() == old(self).started_at(),
    {
        proof {
            lemma_step_makes_progress(self.state(), self.program(), self.limits);
            if self.sound() {
                let floor = choose|floor: int| self.sound_above(floor);
                lemma_step_keeps_sound(self.state(), self.program(), self.limits, floor);
                lemma_step_keeps_named(
                    self.state(),
                    self.program(),
                    self.limits,
                    floor,
                    self.symbols().len(),
                );
                lemma_step_keeps_level(
                    self.state(),
                    self.program(),
                    self.limits,
                    floor,
                    self.started_at(),
                );
                assert(self.state().step(self.program(), self.limits).0.sound(
                    self.program(),
                    floor,
                ));
            }
        }
        let ghost expected = self.state().step(self.program(), self.limits).0;
        let ghost was_sound = self.sound();
        let ghost floor = choose|floor: int| self.sound_above(floor);
        let progress = self.step_unchecked();
        proof {
            if was_sound {
                assert(self.state() == expected);
                assert(self.sound_above(floor));
            }
        }
        progress
    }

    /// One step of the search.
    fn step_unchecked(&mut self) -> (progress: Result<Progress, EngineError>)
        requires
            old(self).wf(),
        ensures
            (progress, final(self).state()) == (
                old(self).state().step(old(self).program(), old(self).bounds()).1,
                old(self).state().step(old(self).program(), old(self).bounds()).0,
            ),
            final(self).program() == old(self).program(),
            final(self).bounds() == old(self).bounds(),
            final(self).symbols() == old(self).symbols(),
            final(self).asked() == old(self).asked(),
            final(self).asked_variables() == old(self).asked_variables(),
            final(self).started_at() == old(self).started_at(),
    {
        if self.spines.len() == 0 {
            return Ok(Progress::Exhausted);
        }
        let last = self.spines.len() - 1;
        assert(self.state().spines.last() == self.spines@[last as int]@);
        if self.answered {
            self.backtrack();
            Ok(Progress::Searching)
        } else if self.spines[last].goals.len() == 0 {
            self.answered = true;
            Ok(Progress::Solution)
        } else if self.spines[last].num_unified_clauses < self.spines[last].unifiable_clauses.len() {
            self.attempt()
        } else {
            self.backtrack();
            Ok(Progress::Searching)
        }
    }

    /// Puts heap and trail back to what they were before a clause was
    /// copied and its head unified.
    fn roll_back(&mut self, heap_mark: HeapIndex, trail_mark: usize)
        ensures
            final(self).state() == (Search {
                store: old(self).state().store.unwind(trail_mark as int).truncate(heap_mark as int),
                ..old(self).state()
            }),
            final(self).program() == old(self).program(),
            final(self).bounds() == old(self).bounds(),
            final(self).symbols() == old(self).symbols(),
            final(self).asked() == old(self).asked(),
            final(self).asked_variables() == old(self).asked_variables(),
            final(self).started_at() == old(self).started_at(),
    {
        unwind_trail(&mut self.heap, &mut self.trail, trail_mark);
        self.heap.truncate(heap_mark);
    }

    /// Tries the next clause of the spine on top on its first goal.
    fn attempt(&mut self) -> (progress: Result<Progress, EngineError>)
        requires
            old(self).wf(),
            old(self).state().spines.len() > 0,
            old(self).state().spines.last().goals.len() > 0,
            old(self).state().spines.last().num_unified_clauses < old(
                self,
            ).state().spines.last().unifiable_clauses.len(),
        ensures
            (progress, final(self).state()) == (
                old(self).state().attempt(old(self).program(), old(self).bounds()).1,
                old(self).state().attempt(old(self).program(), old(self).bounds()).0,
            ),
            final(self).program() == old(self).program(),
            final(self).bounds() == old(self).bounds(),
            final(self).symbols() == old(self).symbols(),
            final(self).asked() == old(self).asked(),
            final(self).asked_variables() == old(self).asked_variables(),
            final(self).started_at() == old(self).started_at(),
    {
        let ghost start = self.state();
        let ghost expected = start.attempt(self.program(), self.limits);
        let mut top = self.spines.pop().unwrap();
        assert(start.spines.last() == top@);
        let goal = top.goals[0];
        let picked = top.unifiable_clauses[top.num_unified_clauses];
        let base = top.base;
        let trail_top = top.trail_top;
        let ghost before = top@;
        top.num_unified_clauses = top.num_unified_clauses + 1;
        assert(top@ == (SpineRecord {
            num_unified_clauses: (before.num_unified_clauses + 1) as usize,
            ..before
        }));
        self.spines.push(top);
        let last = self.spines.len() - 1;
        let ghost advanced = start.spines.drop_last().push(self.spines@[last as int]@);
        assert(self.state().spines =~= advanced);
        self.answered = false;
        restore(&mut self.heap, &mut self.trail, base, trail_top);
        let ghost restored = Store { cells: self.heap@, trail: self.trail@ };
        let ghost tried = Search { store: restored, spines: advanced, answered: false };
        assert(self.state() == tried);

        if picked >= self.clauses.len() {
            return Err(EngineError::InternalInvariantViolation);
        }
        let heap_mark = self.heap.len();
        let trail_mark = self.trail.len();
        assert(restored.unwind(trail_mark as int) == restored);
        assert(self.program()[picked as int] == self.clauses@[picked as int]@);
        let to = match copy_clause(&mut self.heap, &self.clauses[picked], self.limits.heap) {
            Ok(to) => to,
            Err(error) => {
                let ghost grown = Store { cells: self.heap@, trail: self.trail@ };
                assert(grown.unwind(trail_mark as int) == grown);
                self.roll_back(heap_mark, trail_mark);
                assert(self.state() == tried);
                return Err(error);
            },
        };
        proof {
            self.heap.lemma_len_fits();
        }
        let ghost copied = Store { cells: self.heap@, trail: self.trail@ };
        assert(copied.unwind(trail_mark as int) == copied);
        assert(copied.cells.take(heap_mark as int) =~= restored.cells);
        let terms = match relocate_terms(&self.clauses[picked], to) {
            Some(terms) => terms,
            None => {
                self.roll_back(heap_mark, trail_mark);
                assert(self.state() == tried);
                return Err(EngineError::InternalInvariantViolation);
            },
        };
        if terms.len() == 0 || self.clauses[picked].length == 0 {
            self.roll_back(heap_mark, trail_mark);
            assert(self.state() == tried);
            return Err(EngineError::InternalInvariantViolation);
        }
        let outcome = unify(
            &mut self.heap,
            &mut self.trail,
            goal.data,
            terms[0].data,
            self.limits.trail,
        );
        proof {
            lemma_unify_can_be_taken_back(
                copied,
                goal.data as int,
                terms@[0].data as int,
                copied.cells.len(),
                self.limits.trail as nat,
            );
        }
        let ghost unified = Store { cells: self.heap@, trail: self.trail@ };
        assert(unified.unwind(trail_mark as int) == copied);
        match outcome {
            Err(error) => {
                self.roll_back(heap_mark, trail_mark);
                assert(self.state() == tried);
                Err(error)
            },
            Ok(false) => {
                self.roll_back(heap_mark, trail_mark);
                assert(self.state() == tried);
                Ok(Progress::Searching)
            },
            Ok(true) => {
                let mut goals = Vec::new();
                copy_tail(&terms, 1, &mut goals);
                copy_tail(&self.spines[last].goals, 1, &mut goals);
                assert(goals@ =~= terms@.skip(1) + before.goals.skip(1));
                let unifiable_clauses = match find_candidates(&self.heap, &self.clauses, &goals) {
                    Ok(unifiable_clauses) => unifiable_clauses,
                    Err(error) => {
                        self.roll_back(heap_mark, trail_mark);
                        assert(self.state() == tried);
                        return Err(error);
                    },
                };
                let spine = Spine::new(
                    self.heap.len(),
                    self.trail.len(),
                    goals,
                    unifiable_clauses,
                    0,
                );
                self.spines.push(spine);
                assert(self.state().spines =~= advanced.push(spine@));
                assert(self.state() == expected.0);
                Ok(Progress::Searching)
            },
        }
    }

    /// Searches for the next answer: takes steps until one of them reports an
    /// answer, finds the search exhausted, or fails. Returns whether there
    /// is an answer: if so, the heap holds the bindings that make the query
    /// true, and the goals of the query read back with `read` are the
    /// answer. A later call goes on from where this one stopped.
    pub fn next_solution(&mut self) -> (found: Result<bool, EngineError>)
        requires
            old(self).wf(),
        ensures
            final(self).wf(),
            final(self).program() == old(self).program(),
            final(self).bounds() == old(self).bounds(),
            final(self).symbols() == old(self).symbols(),
            final(self).asked() == old(self).asked(),
            final(self).asked_variables() == old(self).asked_variables(),
            final(self).started_at() == old(self).started_at(),
            old(self).sound() ==> final(self).sound() && found != Err::<bool, EngineError>(
                EngineError::InternalInvariantViolation,
            ),
            exists|steps: nat|
                {
                    &&& #[trigger] old(self).state().stops_after(
                        old(self).program(),
                        old(self).bounds(),
                        steps,
                    )
                    &&& old(self).state().outcome_after(
                        old(self).program(),
                        old(self).bounds(),
                        steps,
                    ) == (
                        final(self).state(),
                        match found {
                            Ok(true) => Ok::<Progress, EngineError>(Progress::Solution),
                            Ok(false) => Ok(Progress::Exhausted),
                            Err(error) => Err(error),
                        },
                    )
                },
    {
        let ghost start = self.state();
        let ghost mut taken: nat = 0;
        loop
            invariant
                self.wf(),
                self.program() == old(self).program(),
                self.bounds() == old(self).bounds(),
                self.symbols() == old(self).symbols(),
                self.asked() == old(self).asked(),
                self.asked_variables() == old(self).asked_variables(),
                self.started_at() == old(self).started_at(),
                start == old(self).state(),
                old(self).sound() ==> self.sound(),
                self.state() == start.advance(self.program(), self.bounds(), taken),
                start.searches_for(self.program(), self.bounds(), taken),
            decreases self.remaining(),
        {
            let progress = self.step();
            match progress {
                Ok(Progress::Searching) => {
                    proof {
                        taken = taken + 1;
                    }
                },
                Ok(Progress::Solution) => {
                    assert(start.stops_after(self.program(), self.bounds(), taken));
                    return Ok(true);
                },
                Ok(Progress::Exhausted) => {
                    assert(start.stops_after(self.program(), self.bounds(), taken));
                    return Ok(false);
                },
                Err(error) => {
                    assert(start.stops_after(self.program(), self.bounds(), taken));
                    return Err(error);
                },
            }
        }
    }
}

} // verus!
