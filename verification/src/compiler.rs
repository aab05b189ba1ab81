//! The compiler: flattens clauses and queries onto the heap and records
//! where each of them lies.

use vstd::prelude::*;
use vstd::hash_map::StringHashMap;
use crate::ast::{Clause, CompoundTerm, Program, Query, SimpleTerm, Term};
use crate::block::get_subterms;
use crate::heap::{Heap, HeapEntry, HeapIndex, HeapTag};
use crate::laws::placement::{placed, span};
use crate::layout::{cell, ClauseRecord, Layout, located, QueryRecord};
use crate::symbols::SymbolTable;
use crate::variables::{names_view, variable_names};

verus! {

/// Where a compiled clause lies on the heap.
#[derive(Clone, Debug, PartialEq)]
pub struct ClauseDescriptor {
    /// First cell of the clause.
    pub base: HeapIndex,
    /// Number of cells the clause takes.
    pub length: HeapIndex,
    /// Length of the heap right after the head.
    pub neck: HeapIndex,
    /// One `Reference` to the head and one to each goal of the body.
    pub terms: Vec<HeapEntry>,
    /// The subterms of the head.
    pub head_subterms: Vec<HeapEntry>,
}

impl View for ClauseDescriptor {
    type V = ClauseRecord;

    open spec fn view(&self) -> ClauseRecord {
        ClauseRecord {
            base: self.base,
            length: self.length,
            neck: self.neck,
            terms: self.terms@,
            head_subterms: self.head_subterms@,
        }
    }
}

/// Where a compiled query lies on the heap.
#[derive(Clone, Debug, PartialEq)]
pub struct QueryDescriptor {
    /// First cell of the query.
    pub base: HeapIndex,
    /// Number of cells the query takes.
    pub length: HeapIndex,
    /// One `Reference` to each goal.
    pub terms: Vec<HeapEntry>,
}

impl View for QueryDescriptor {
    type V = QueryRecord;

    open spec fn view(&self) -> QueryRecord {
        QueryRecord { base: self.base, length: self.length, terms: self.terms@ }
    }
}

/// A point of the search to come back to: the goals still to prove, the
/// clauses that may match the first of them, and how far heap and trail had
/// grown when the point was made.
#[derive(Debug, PartialEq)]
pub struct Spine {
    /// Length of the heap when the spine was made.
    pub base: HeapIndex,
    /// Length of the trail when the spine was made.
    pub trail_top: HeapIndex,
    /// The goals still to prove, first to last.
    pub goals: Vec<HeapEntry>,
    /// Room for subterms of the first goal; not filled in.
    pub dereferenced_elements: Vec<HeapEntry>,
    /// The clauses to try on the first goal, by their position in the
    /// clause list.
    pub unifiable_clauses: Vec<usize>,
    /// How many of `unifiable_clauses` have been tried.
    pub num_unified_clauses: usize,
}

/// What a spine records, as plain values.
#[verifier::ext_equal]
pub struct SpineRecord {
    pub base: HeapIndex,
    pub trail_top: HeapIndex,
    pub goals: Seq<HeapEntry>,
    pub dereferenced_elements: Seq<HeapEntry>,
    pub unifiable_clauses: Seq<usize>,
    pub num_unified_clauses: usize,
}

impl View for Spine {
    type V = SpineRecord;

    open spec fn view(&self) -> SpineRecord {
        SpineRecord {
            base: self.base,
            trail_top: self.trail_top,
            goals: self.goals@,
            dereferenced_elements: self.dereferenced_elements@,
            unifiable_clauses: self.unifiable_clauses@,
            num_unified_clauses: self.num_unified_clauses,
        }
    }
}

impl Spine {
    /// A spine with the given marks, goals and clauses to try.
    pub fn new(
        base: usize,
        trail_top: usize,
        goals: Vec<HeapEntry>,
        unifiable_clauses: Vec<usize>,
        num_unified_clauses: usize,
    ) -> (spine: Self)
        ensures
            spine@ == (SpineRecord {
                base,
                trail_top,
                goals: goals@,
                dereferenced_elements: Seq::empty(),
                unifiable_clauses: unifiable_clauses@,
                num_unified_clauses,
            }),
    {
        Spine {
            base,
            trail_top,
            goals,
            dereferenced_elements: Vec::new(),
            unifiable_clauses,
            num_unified_clauses,
        }
    }
}

/// The spine that a search for `query` starts from: all its goals open and
/// every one of `clause_count` clauses still to try.
pub open spec fn initial_spine(
    query: QueryRecord,
    base: HeapIndex,
    trail_top: HeapIndex,
    clause_count: nat,
) -> SpineRecord {
    SpineRecord {
        base,
        trail_top,
        goals: query.terms,
        dereferenced_elements: Seq::empty(),
        unifiable_clauses: Seq::new(clause_count, |i: int| i as usize),
        num_unified_clauses: 0,
    }
}

/// The spines that a search of `queries` starts from, the spine of the last
/// query first.
pub open spec fn initial_spines(
    queries: Seq<QueryRecord>,
    base: HeapIndex,
    trail_top: HeapIndex,
    clause_count: nat,
) -> Seq<SpineRecord> {
    Seq::new(
        queries.len(),
        |j: int| initial_spine(queries[queries.len() - 1 - j], base, trail_top, clause_count),
    )
}

/// A copy of `entries`.
fn copy_entries(entries: &Vec<HeapEntry>) -> (copy: Vec<HeapEntry>)
    ensures
        copy@ == entries@,
{
    let mut copy = Vec::new();
    let mut i: usize = 0;
    while i < entries.len()
        invariant
            i <= entries@.len(),
            copy@ == entries@.take(i as int),
        decreases entries@.len() - i,
    {
        copy.push(entries[i]);
        i += 1;
        assert(copy@ =~= entries@.take(i as int));
    }
    assert(entries@.take(i as int) =~= entries@);
    copy
}

/// The positions `0` to `count - 1`, in order.
fn clause_indices(count: usize) -> (indices: Vec<usize>)
    ensures
        indices@ == Seq::new(count as nat, |i: int| i as usize),
{
    let mut indices = Vec::new();
    let mut i: usize = 0;
    while i < count
        invariant
            i <= count,
            indices@ == Seq::new(i as nat, |i: int| i as usize),
        decreases count - i,
    {
        indices.push(i);
        i += 1;
        assert(indices@ =~= Seq::new(i as nat, |i: int| i as usize));
    }
    indices
}

/// A variable of a query, and the cell of its first occurrence.
#[derive(Debug, PartialEq, Eq)]
pub struct QueryVariable {
    pub name: String,
    pub cell: HeapIndex,
}

impl View for QueryVariable {
    type V = (Seq<char>, HeapIndex);

    open spec fn view(&self) -> (Seq<char>, HeapIndex) {
        (self.name@, self.cell)
    }
}

/// The variables as plain values.
pub open spec fn variables_view(variables: Seq<QueryVariable>) -> Seq<(Seq<char>, HeapIndex)> {
    Seq::new(variables.len(), |i: int| variables[i]@)
}

/// Compiles programs onto a heap that it owns.
pub struct Compiler {
    /// The cells of everything compiled so far.
    pub heap: Heap,
    /// One descriptor for each clause compiled so far.
    pub clauses: Vec<ClauseDescriptor>,
    /// The names of the atoms met so far.
    pub symbol_table: SymbolTable,
    /// First cell of each variable of the clause that is being compiled.
    pub current_clause_variables: StringHashMap<HeapIndex>,
    /// One descriptor for each query compiled so far.
    pub queries: Vec<QueryDescriptor>,
    /// The variables of each query compiled so far.
    pub query_variables: Vec<Vec<QueryVariable>>,
    /// The spines that the search starts from.
    pub spines: Vec<Spine>,
    /// The cells bound so far: none before the search starts.
    pub trail: Vec<HeapIndex>,
}

impl Compiler {
    /// The heap, the interned names and the variable scope, as one value.
    pub open spec fn layout(&self) -> Layout {
        Layout {
            cells: self.heap@,
            symbols: self.symbol_table@,
            variables: self.current_clause_variables@,
        }
    }

    /// The symbol table is well formed.
    pub open spec fn wf(&self) -> bool {
        self.symbol_table.wf()
    }

    /// The descriptors of the compiled clauses, as plain values.
    pub open spec fn clause_records(&self) -> Seq<ClauseRecord> {
        Seq::new(self.clauses@.len(), |i: int| self.clauses@[i]@)
    }

    /// The descriptors of the compiled queries, as plain values.
    pub open spec fn query_records(&self) -> Seq<QueryRecord> {
        Seq::new(self.queries@.len(), |i: int| self.queries@[i]@)
    }

    /// The variables of the compiled queries, as plain values.
    pub open spec fn variable_records(&self) -> Seq<Seq<(Seq<char>, HeapIndex)>> {
        Seq::new(self.query_variables@.len(), |i: int| variables_view(self.query_variables@[i]@))
    }

    /// The spines, as plain values.
    pub open spec fn spine_records(&self) -> Seq<SpineRecord> {
        Seq::new(self.spines@.len(), |i: int| self.spines@[i]@)
    }

    /// A compiler with an empty heap and nothing compiled.
    pub fn new() -> (compiler: Self)
        ensures
            compiler.wf(),
            compiler.layout() == (Layout {
                cells: Seq::empty(),
                symbols: Seq::empty(),
                variables: Map::empty(),
            }),
            compiler.clauses@.len() == 0,
            compiler.queries@.len() == 0,
            compiler.query_variables@.len() == 0,
            compiler.spines@.len() == 0,
            compiler.trail@.len() == 0,
    {
        Compiler {
            heap: Heap::new(),
            clauses: Vec::new(),
            symbol_table: SymbolTable::new(),
            current_clause_variables: StringHashMap::new(),
            queries: Vec::new(),
            query_variables: Vec::new(),
            spines: Vec::new(),
            trail: Vec::new(),
        }
    }

    /// Compiles the clauses of `program`, then its queries, and makes a
    /// spine for every query compiled so far.
    pub fn compile(&mut self, program: Program)
        requires
            old(self).wf(),
        ensures
            final(self).wf(),
            final(self).layout() == old(self).layout().put_clauses(
                program.clauses@,
                program.clauses@.len(),
            ).put_queries(program.queries@, program.queries@.len()),
            final(self).clause_records() == old(self).clause_records() + old(
                self,
            ).layout().describe_clauses(program.clauses@),
            final(self).query_records() == old(self).query_records() + old(self).layout().put_clauses(
                program.clauses@,
                program.clauses@.len(),
            ).describe_queries(program.queries@),
            final(self).variable_records() == old(self).variable_records() + old(
                self,
            ).layout().put_clauses(program.clauses@, program.clauses@.len()).describe_all_variables(
                program.queries@,
            ),
            final(self).spine_records() == old(self).spine_records() + initial_spines(
                final(self).query_records(),
                final(self).heap@.len() as usize,
                final(self).trail@.len() as usize,
                final(self).clauses@.len(),
            ),
            final(self).trail == old(self).trail,
    {
        let mut i: usize = 0;
        while i < program.clauses.len()
            invariant
                self.wf(),
                i <= program.clauses@.len(),
                self.layout() == old(self).layout().put_clauses(program.clauses@, i as nat),
                self.clause_records() == old(self).clause_records() + old(
                    self,
                ).layout().describe_clauses(program.clauses@).take(i as int),
                self.queries == old(self).queries,
                self.spines == old(self).spines,
                self.trail == old(self).trail,
                self.query_variables == old(self).query_variables,
            decreases program.clauses@.len() - i,
        {
            self.compile_clause(&program.clauses[i]);
            i += 1;
            assert(self.clause_records() =~= old(self).clause_records() + old(
                self,
            ).layout().describe_clauses(program.clauses@).take(i as int));
        }
        assert(old(self).layout().describe_clauses(program.clauses@).take(i as int) =~= old(
            self,
        ).layout().describe_clauses(program.clauses@));
        let ghost compiled = self.layout();

        let mut i: usize = 0;
        while i < program.queries.len()
            invariant
                self.wf(),
                i <= program.queries@.len(),
                self.layout() == compiled.put_queries(program.queries@, i as nat),
                self.query_records() == old(self).query_records() + compiled.describe_queries(
                    program.queries@,
                ).take(i as int),
                self.variable_records() == old(self).variable_records()
                    + compiled.describe_all_variables(program.queries@).take(i as int),
                self.clause_records() == old(self).clause_records() + old(
                    self,
                ).layout().describe_clauses(program.clauses@),
                self.spines == old(self).spines,
                self.trail == old(self).trail,
            decreases program.queries@.len() - i,
        {
            self.compile_query(&program.queries[i]);
            i += 1;
            assert(self.query_records() =~= old(self).query_records() + compiled.describe_queries(
                program.queries@,
            ).take(i as int));
            assert(self.variable_records() =~= old(self).variable_records()
                + compiled.describe_all_variables(program.queries@).take(i as int));
        }
        assert(compiled.describe_queries(program.queries@).take(i as int)
            =~= compiled.describe_queries(program.queries@));
        assert(compiled.describe_all_variables(program.queries@).take(i as int)
            =~= compiled.describe_all_variables(program.queries@));
        self.create_initial_spine();
    }

    /// Makes the spine that the search of each query starts from. The
    /// spines go onto the stack last query first, so that they come off it
    /// in the order of the queries.
    pub fn create_initial_spine(&mut self)
        ensures
            final(self).spine_records() == old(self).spine_records() + initial_spines(
                old(self).query_records(),
                old(self).heap@.len() as usize,
                old(self).trail@.len() as usize,
                old(self).clauses@.len(),
            ),
            final(self).heap == old(self).heap,
            final(self).symbol_table == old(self).symbol_table,
            final(self).current_clause_variables == old(self).current_clause_variables,
            final(self).clauses == old(self).clauses,
            final(self).queries == old(self).queries,
            final(self).trail == old(self).trail,
            final(self).query_variables == old(self).query_variables,
    {
        let base = self.heap.len();
        let trail_top = self.trail.len();
        let clause_count = self.clauses.len();
        let count = self.queries.len();
        let ghost expected = initial_spines(
            self.query_records(),
            base,
            trail_top,
            clause_count as nat,
        );
        let mut done: usize = 0;
        while done < count
            invariant
                done <= count,
                count == self.queries@.len(),
                base == self.heap@.len(),
                trail_top == self.trail@.len(),
                clause_count == self.clauses@.len(),
                expected == initial_spines(
                    self.query_records(),
                    base,
                    trail_top,
                    clause_count as nat,
                ),
                self.spine_records() == old(self).spine_records() + expected.take(done as int),
                self.heap == old(self).heap,
                self.symbol_table == old(self).symbol_table,
                self.current_clause_variables == old(self).current_clause_variables,
                self.clauses == old(self).clauses,
                self.queries == old(self).queries,
                self.trail == old(self).trail,
                self.query_variables == old(self).query_variables,
            decreases count - done,
        {
            let query = &self.queries[count - 1 - done];
            let goals = copy_entries(&query.terms);
            let unifiable_clauses = clause_indices(clause_count);
            let spine = Spine::new(base, trail_top, goals, unifiable_clauses, 0);
            proof {
                assert(self.query_records()[count - 1 - done] == query@);
                assert(spine@ =~= expected[done as int]);
            }
            let ghost before = self.spine_records();
            self.spines.push(spine);
            done += 1;
            assert(self.spine_records() =~= before.push(spine@));
            assert(self.spine_records() =~= old(self).spine_records() + expected.take(done as int));
        }
        assert(expected.take(done as int) =~= expected);
    }

    /// Compiles a simple term into the cell at `index`, which must have been
    /// reserved.
    pub fn compile_simple_term_no_alloc(&mut self, term: &SimpleTerm, index: HeapIndex)
        requires
            old(self).wf(),
            index < old(self).heap@.len(),
        ensures
            final(self).wf(),
            final(self).layout() == old(self).layout().put_simple(*term, index as int),
            final(self).clauses == old(self).clauses,
            final(self).queries == old(self).queries,
            final(self).spines == old(self).spines,
            final(self).trail == old(self).trail,
            final(self).query_variables == old(self).query_variables,
    {
        match term {
            SimpleTerm::Atom(atom) => {
                let symbol_index = self.symbol_table.intern(atom.as_str());
                let heap_entry = HeapEntry::new(HeapTag::Constant, symbol_index);
                self.heap.write(index, heap_entry);
            },
            SimpleTerm::Variable(variable) => {
                let seen = match self.current_clause_variables.get(variable.as_str()) {
                    Some(variable_index) => Some(*variable_index),
                    None => None,
                };
                match seen {
                    Some(variable_index) => {
                        self.heap.write(index, HeapEntry::new(HeapTag::Unify, variable_index));
                    },
                    None => {
                        self.heap.write(index, HeapEntry::new(HeapTag::Variable, index));
                        self.current_clause_variables.insert(variable.clone(), index);
                    },
                }
            },
        }
        assert(self.layout() =~= old(self).layout().put_simple(*term, index as int));
    }

    /// Appends the `Arity` cell that stands before an atom or variable used
    /// as a head or goal, so that every head and goal starts with one.
    pub fn create_arity_entry_for_simple_term(&mut self)
        ensures
            final(self).layout() == old(self).layout().put_wrapper(),
            final(self).symbol_table == old(self).symbol_table,
            final(self).clauses == old(self).clauses,
            final(self).queries == old(self).queries,
            final(self).spines == old(self).spines,
            final(self).trail == old(self).trail,
            final(self).query_variables == old(self).query_variables,
    {
        let index = self.heap.allocate(1);
        self.heap.write(index, HeapEntry::new(HeapTag::Arity, 1));
        assert(self.layout() =~= old(self).layout().put_wrapper());
    }

    /// Compiles a simple term into a fresh cell and returns its position.
    pub fn compile_simple_term(&mut self, term: &SimpleTerm) -> (index: HeapIndex)
        requires
            old(self).wf(),
        ensures
            final(self).wf(),
            index == old(self).heap@.len(),
            final(self).layout() == old(self).layout().put_term(Term::Simple(*term)),
            final(self).clauses == old(self).clauses,
            final(self).queries == old(self).queries,
            final(self).spines == old(self).spines,
            final(self).trail == old(self).trail,
            final(self).query_variables == old(self).query_variables,
    {
        let index = self.heap.allocate(1);
        assert(self.layout() =~= old(self).layout().reserve(1));
        self.compile_simple_term_no_alloc(term, index);
        index
    }

    /// Compiles a compound term into a block of its own and returns the
    /// position of its first cell. Nested compound parameters follow the
    /// block, each in a block of its own with all that is nested in it, in
    /// the order of the parameters and each right behind the one before.
    pub fn compile_compound_term(&mut self, term: &CompoundTerm) -> (start_index: HeapIndex)
        requires
            old(self).wf(),
        ensures
            final(self).wf(),
            start_index == old(self).heap@.len(),
            final(self).layout() == old(self).layout().put_compound(*term),
            final(self).heap@.len() == old(self).heap@.len() + span(*term),
            placed(final(self).heap@, final(self).symbol_table@, *term, start_index as int),
            final(self).clauses == old(self).clauses,
            final(self).queries == old(self).queries,
            final(self).spines == old(self).spines,
            final(self).trail == old(self).trail,
            final(self).query_variables == old(self).query_variables,
        decreases term,
    {
        let count = term.parameters.len();
        let start_index = self.heap.allocate(2);
        self.heap.allocate(count);
        assert(self.layout() =~= old(self).layout().reserve(2 + count as nat));
        self.heap.write(start_index, HeapEntry::new(HeapTag::Arity, count));
        let mut index = start_index + 1;
        self.compile_simple_term_no_alloc(&term.name, index);
        let ghost named = self.layout();
        let mut i: usize = 0;
        while i < count
            invariant
                self.wf(),
                count == term.parameters@.len(),
                i <= count,
                index == start_index + 1 + i,
                start_index == old(self).heap@.len(),
                self.heap@.len() >= start_index + 2 + count,
                named == old(self).layout().reserve(2 + count as nat).store(
                    start_index as int,
                    cell(HeapTag::Arity, count as int),
                ).put_simple(term.name, start_index + 1),
                self.layout() == named.put_parameters(
                    term.parameters@,
                    start_index + 2,
                    i as nat,
                ),
                self.clauses == old(self).clauses,
                self.queries == old(self).queries,
                self.spines == old(self).spines,
                self.trail == old(self).trail,
                self.query_variables == old(self).query_variables,
            decreases count - i,
        {
            proof {
                self.heap.lemma_len_fits();
            }
            index += 1;
            let ghost before = self.layout();
            match &term.parameters[i] {
                Term::Simple(simple_term) => {
                    self.compile_simple_term_no_alloc(simple_term, index);
                },
                Term::Compound(compound_term) => {
                    let subterm_index = self.compile_compound_term(compound_term);
                    let reference = HeapEntry::new(HeapTag::Reference, subterm_index);
                    self.heap.write(index, reference);
                    assert(self.layout() =~= before.put_compound(*compound_term).store(
                        index as int,
                        cell(HeapTag::Reference, before.cells.len() as int),
                    ));
                },
            }
            i += 1;
        }
        proof {
            self.heap.lemma_len_fits();
            self.symbol_table.lemma_len_fits();
            old(self).layout().lemma_compound_is_placed(*term);
        }
        start_index
    }

    /// Compiles a term and returns the position of its first cell.
    pub fn compile_term(&mut self, term: &Term) -> (index: HeapIndex)
        requires
            old(self).wf(),
        ensures
            final(self).wf(),
            index == old(self).heap@.len(),
            final(self).layout() == old(self).layout().put_term(*term),
            final(self).heap@.len() > old(self).heap@.len(),
            term is Compound ==> final(self).heap@.len() >= old(self).heap@.len() + 2,
            final(self).clauses == old(self).clauses,
            final(self).queries == old(self).queries,
            final(self).spines == old(self).spines,
            final(self).trail == old(self).trail,
            final(self).query_variables == old(self).query_variables,
    {
        match term {
            Term::Compound(term) => self.compile_compound_term(term),
            Term::Simple(term) => self.compile_simple_term(term),
        }
    }

    /// Compiles a clause: its head and its body goals onto the heap, in a
    /// variable scope of its own, and its descriptor onto the clause list.
    pub fn compile_clause(&mut self, clause: &Clause)
        requires
            old(self).wf(),
        ensures
            final(self).wf(),
            final(self).layout() == old(self).layout().put_clause(*clause),
            final(self).clause_records() == old(self).clause_records().push(
                old(self).layout().describe_clause(*clause),
            ),
            final(self).heap@.len() >= old(self).heap@.len() + 2,
            final(self).queries == old(self).queries,
            final(self).spines == old(self).spines,
            final(self).trail == old(self).trail,
            final(self).query_variables == old(self).query_variables,
    {
        self.current_clause_variables.clear();
        assert(self.layout() =~= old(self).layout().forget_variables());

        let base = self.heap.len();
        self.compile_goal(&clause.head);
        let neck = self.heap.len();
        let ghost head_done = self.layout();

        let mut terms = Vec::new();
        terms.push(HeapEntry::new(HeapTag::Reference, base));

        let mut i: usize = 0;
        while i < clause.body.len()
            invariant
                self.wf(),
                i <= clause.body@.len(),
                self.layout() == head_done.put_goals(clause.body@, i as nat),
                self.heap@.len() >= neck,
                terms@.len() == 1 + i,
                terms@[0] == cell(HeapTag::Reference, base as int),
                forall|j: int|
                    1 <= j <= i ==> #[trigger] terms@[j] == cell(
                        HeapTag::Reference,
                        head_done.put_goals(clause.body@, (j - 1) as nat).cells.len() as int,
                    ),
                self.clauses == old(self).clauses,
                self.queries == old(self).queries,
                self.spines == old(self).spines,
                self.trail == old(self).trail,
                self.query_variables == old(self).query_variables,
            decreases clause.body@.len() - i,
        {
            let term_index = self.compile_goal(&clause.body[i]);
            terms.push(HeapEntry::new(HeapTag::Reference, term_index));
            i += 1;
        }

        let length = self.heap.len() - base;
        proof {
            let expected = old(self).layout().describe_clause(*clause);
            assert(terms@ =~= expected.terms);
            self.heap.lemma_len_fits();
            old(self).layout().lemma_head_is_readable(*clause);
            assert(expected.terms[0] == terms@[0]);
        }
        // The head has just been laid out, so its arguments can be read.
        let head_subterms = match get_subterms(&self.heap, terms[0]) {
            Ok(head_subterms) => head_subterms,
            Err(_) => Vec::new(),
        };

        self.clauses.push(ClauseDescriptor { base, length, neck, terms, head_subterms });
        assert(self.clause_records() =~= old(self).clause_records().push(
            old(self).layout().describe_clause(*clause),
        ));
    }

    /// Compiles a query: its goals onto the heap, in a variable scope of
    /// their own, and its descriptor onto the query list.
    pub fn compile_query(&mut self, query: &Query)
        requires
            old(self).wf(),
        ensures
            final(self).wf(),
            final(self).layout() == old(self).layout().put_query(*query),
            final(self).query_records() == old(self).query_records().push(
                old(self).layout().describe_query(*query),
            ),
            final(self).variable_records() == old(self).variable_records().push(
                old(self).layout().describe_variables(*query),
            ),
            final(self).heap@.len() >= old(self).heap@.len(),
            final(self).clauses == old(self).clauses,
            final(self).spines == old(self).spines,
            final(self).trail == old(self).trail,
    {
        self.current_clause_variables.clear();
        assert(self.layout() =~= old(self).layout().forget_variables());
        let ghost scope = self.layout();

        let base = self.heap.len();
        let mut terms = Vec::new();
        let mut i: usize = 0;
        while i < query.sub_queries.len()
            invariant
                self.wf(),
                i <= query.sub_queries@.len(),
                self.layout() == scope.put_goals(query.sub_queries@, i as nat),
                self.heap@.len() >= base,
                terms@.len() == i,
                forall|j: int|
                    0 <= j < i ==> #[trigger] terms@[j] == cell(
                        HeapTag::Reference,
                        scope.put_goals(query.sub_queries@, j as nat).cells.len() as int,
                    ),
                self.clauses == old(self).clauses,
                self.queries == old(self).queries,
                self.spines == old(self).spines,
                self.trail == old(self).trail,
                self.query_variables == old(self).query_variables,
            decreases query.sub_queries@.len() - i,
        {
            let term_index = self.compile_goal(&query.sub_queries[i]);
            terms.push(HeapEntry::new(HeapTag::Reference, term_index));
            i += 1;
        }
        let length = self.heap.len() - base;
        proof {
            let expected = old(self).layout().describe_query(*query);
            assert(terms@ =~= expected.terms);
        }
        self.queries.push(QueryDescriptor { base, length, terms });
        assert(self.query_records() =~= old(self).query_records().push(
            old(self).layout().describe_query(*query),
        ));
        let names = variable_names(&query.sub_queries);
        let variables = self.locate(&names);
        self.query_variables.push(variables);
        assert(self.variable_records() =~= old(self).variable_records().push(
            old(self).layout().describe_variables(*query),
        ));
    }

    /// The names that are in scope, each with the cell of its variable.
    fn locate(&self, names: &Vec<String>) -> (found: Vec<QueryVariable>)
        ensures
            variables_view(found@) == located(
                names_view(names@),
                self.layout().variables,
                names@.len(),
            ),
    {
        let mut found: Vec<QueryVariable> = Vec::new();
        assert(variables_view(found@) =~= Seq::<(Seq<char>, HeapIndex)>::empty());
        let mut i: usize = 0;
        while i < names.len()
            invariant
                i <= names@.len(),
                variables_view(found@) == located(
                    names_view(names@),
                    self.layout().variables,
                    i as nat,
                ),
            decreases names@.len() - i,
        {
            let ghost before = variables_view(found@);
            match self.current_clause_variables.get(names[i].as_str()) {
                Some(cell) => {
                    found.push(QueryVariable { name: names[i].clone(), cell: *cell });
                    assert(variables_view(found@) =~= before.push((names@[i as int]@, *cell)));
                },
                None => {},
            }
            assert(names_view(names@)[i as int] == names@[i as int]@);
            i += 1;
        }
        found
    }

    /// Compiles a head or goal, an atom or variable behind an `Arity` cell
    /// of its own, and returns the position of its first cell.
    pub fn compile_goal(&mut self, term: &Term) -> (index: HeapIndex)
        requires
            old(self).wf(),
        ensures
            final(self).wf(),
            index == old(self).heap@.len(),
            final(self).layout() == old(self).layout().put_goal(*term),
            final(self).heap@.len() >= old(self).heap@.len() + 2,
            final(self).clauses == old(self).clauses,
            final(self).queries == old(self).queries,
            final(self).spines == old(self).spines,
            final(self).trail == old(self).trail,
            final(self).query_variables == old(self).query_variables,
    {
        let term_index = self.heap.len();
        if let Term::Simple(_) = term {
            self.create_arity_entry_for_simple_term();
        }
        self.compile_term(term);
        term_index
    }
}

} // verus!
