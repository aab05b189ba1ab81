//! Where the blocks of a compound term lie: the term's own block first,
//! then the block of each nested compound parameter with all that is nested
//! in it, one after the other in the order of the parameters. Two ground
//! terms that are equal are laid out alike, and so unify without binding
//! anything.

use vstd::prelude::*;
use crate::ast::{CompoundTerm, SimpleTerm, Term};
use crate::block::{block_fits, block_width, is_wrapped};
use crate::error::EngineError;
use crate::heap::{HeapEntry, HeapTag};
use crate::laws::unify_laws::{ground_twin_arguments, ground_twins, lemma_unify_ground_twins};
use crate::layout::{cell, Layout};
use crate::store::{resolve, Store};
use crate::unify::{same_functor, unify_terms};

verus! {

/// The number of cells that a compound term takes: its own block and the
/// blocks of all that is nested in it.
pub open spec fn span(term: CompoundTerm) -> nat
    decreases term, 0nat,
{
    2 + term.parameters@.len() + spans(term.parameters@, term.parameters@.len())
}

/// The number of cells that the compound terms among the first `count` of
/// `parameters` take.
pub open spec fn spans(parameters: Seq<Term>, count: nat) -> nat
    decreases parameters, count,
{
    if count == 0 || count > parameters.len() {
        0
    } else {
        spans(parameters, (count - 1) as nat) + match parameters[count - 1] {
            Term::Simple(_) => 0,
            Term::Compound(compound) => span(compound),
        }
    }
}

/// Whether the cell at `slot` shows the atom or variable: a `Constant` with
/// the id of the atom's name, or an occurrence of a variable.
pub open spec fn shows_simple(
    cells: Seq<HeapEntry>,
    symbols: Seq<Seq<char>>,
    term: SimpleTerm,
    slot: int,
) -> bool {
    match term {
        SimpleTerm::Atom(name) => cells[slot].tag == HeapTag::Constant && cells[slot].data
            < symbols.len() && symbols[cells[slot].data as int] == name@,
        SimpleTerm::Variable(_) => cells[slot].is_var_or_unify(),
    }
}

/// Whether the compound term lies at `start` as it is laid out: an `Arity`
/// cell with the number of its parameters, the functor, one cell for each
/// parameter, and then the nested blocks, within the heap.
pub open spec fn placed(
    cells: Seq<HeapEntry>,
    symbols: Seq<Seq<char>>,
    term: CompoundTerm,
    start: int,
) -> bool
    decreases term, 0nat,
{
    let count = term.parameters@.len();
    &&& 0 <= start
    &&& start + span(term) <= cells.len()
    &&& cells[start] == cell(HeapTag::Arity, count as int)
    &&& shows_simple(cells, symbols, term.name, start + 1)
    &&& parameters_placed(cells, symbols, term.parameters@, start + 2, count)
}

/// Whether the first `count` of the parameters of a block lie as they are
/// laid out, the cells of the parameters starting at `first`: an atom or
/// variable in its cell; for a compound term a `Reference` in its cell, to
/// a block of its own that starts where the blocks of the parameters before
/// it end. The first of these blocks starts behind the last parameter.
pub open spec fn parameters_placed(
    cells: Seq<HeapEntry>,
    symbols: Seq<Seq<char>>,
    parameters: Seq<Term>,
    first: int,
    count: nat,
) -> bool
    decreases parameters, count,
{
    count == 0 || count > parameters.len() || {
        let slot = first + count - 1;
        let free = first + parameters.len() + spans(parameters, (count - 1) as nat);
        &&& parameters_placed(cells, symbols, parameters, first, (count - 1) as nat)
        &&& match parameters[count - 1] {
            Term::Simple(simple) => shows_simple(cells, symbols, simple, slot),
            Term::Compound(compound) => cells[slot] == cell(HeapTag::Reference, free) && placed(
                cells,
                symbols,
                compound,
                free,
            ),
        }
    }
}

/// Whether the compound term holds no variable.
pub open spec fn holds_no_variable(term: CompoundTerm) -> bool
    decreases term, 0nat,
{
    term.name is Atom && hold_no_variable(term.parameters@, term.parameters@.len())
}

/// Whether the first `count` of `parameters` hold no variable.
pub open spec fn hold_no_variable(parameters: Seq<Term>, count: nat) -> bool
    decreases parameters, count,
{
    count == 0 || count > parameters.len() || (hold_no_variable(parameters, (count - 1) as nat)
        && match parameters[count - 1] {
        Term::Simple(simple) => simple is Atom,
        Term::Compound(compound) => holds_no_variable(compound),
    })
}

/// Whether two compound terms are the same term: the same functor applied
/// to parameters that are the same, one by one.
pub open spec fn same_term(first: CompoundTerm, second: CompoundTerm) -> bool
    decreases first, 0nat,
{
    &&& first.name@ == second.name@
    &&& first.parameters@.len() == second.parameters@.len()
    &&& same_terms(first.parameters@, second.parameters@, first.parameters@.len())
}

/// Whether the first `count` of the one parameters are the same terms as
/// those of the other.
pub open spec fn same_terms(first: Seq<Term>, second: Seq<Term>, count: nat) -> bool
    decreases first, count,
{
    count == 0 || count > first.len() || count > second.len() || (same_terms(
        first,
        second,
        (count - 1) as nat,
    ) && match (first[count - 1], second[count - 1]) {
        (Term::Simple(one), Term::Simple(other)) => one@ == other@,
        (Term::Compound(one), Term::Compound(other)) => same_term(one, other),
        _ => false,
    })
}

/// The nested blocks of more parameters take no fewer cells.
pub proof fn lemma_spans_grow(parameters: Seq<Term>, fewer: nat, count: nat)
    requires
        fewer <= count <= parameters.len(),
    ensures
        spans(parameters, fewer) <= spans(parameters, count),
        fewer < count ==> match parameters[fewer as int] {
            Term::Simple(_) => true,
            Term::Compound(compound) => spans(parameters, fewer) + span(compound) <= spans(
                parameters,
                count,
            ),
        },
    decreases count,
{
    if fewer < count {
        lemma_spans_grow(parameters, fewer, (count - 1) as nat);
    }
}

/// Of the parameters that are placed, each is placed.
pub proof fn lemma_parameter_is_placed(
    cells: Seq<HeapEntry>,
    symbols: Seq<Seq<char>>,
    parameters: Seq<Term>,
    first: int,
    count: nat,
    j: int,
)
    requires
        parameters_placed(cells, symbols, parameters, first, count),
        0 <= j < count <= parameters.len(),
    ensures
        match parameters[j] {
            Term::Simple(simple) => shows_simple(cells, symbols, simple, first + j),
            Term::Compound(compound) => {
                let free = first + parameters.len() + spans(parameters, j as nat);
                cells[first + j] == cell(HeapTag::Reference, free) && placed(
                    cells,
                    symbols,
                    compound,
                    free,
                )
            },
        },
    decreases count,
{
    if j < count - 1 {
        lemma_parameter_is_placed(cells, symbols, parameters, first, (count - 1) as nat, j);
    }
}

/// Where a compound term lies, it lies in any heap that holds the same
/// cells in the places that the term takes, under names that have kept
/// their ids.
pub proof fn lemma_placed_is_kept(
    cells: Seq<HeapEntry>,
    symbols: Seq<Seq<char>>,
    later: Seq<HeapEntry>,
    later_symbols: Seq<Seq<char>>,
    term: CompoundTerm,
    start: int,
)
    requires
        placed(cells, symbols, term, start),
        symbols.is_prefix_of(later_symbols),
        cells.len() <= later.len(),
        forall|i: int| start <= i < start + span(term) ==> later[i] == cells[i],
    ensures
        placed(later, later_symbols, term, start),
    decreases term, 0nat,
{
    let count = term.parameters@.len();
    assert(later[start] == cells[start]);
    assert(later[start + 1] == cells[start + 1]);
    lemma_parameters_placed_are_kept(
        cells,
        symbols,
        later,
        later_symbols,
        term.parameters@,
        start + 2,
        count,
    );
}

/// Where parameters lie, they lie in any heap that holds the same cells in
/// the places that they take, under names that have kept their ids.
pub proof fn lemma_parameters_placed_are_kept(
    cells: Seq<HeapEntry>,
    symbols: Seq<Seq<char>>,
    later: Seq<HeapEntry>,
    later_symbols: Seq<Seq<char>>,
    parameters: Seq<Term>,
    first: int,
    count: nat,
)
    requires
        parameters_placed(cells, symbols, parameters, first, count),
        count <= parameters.len(),
        symbols.is_prefix_of(later_symbols),
        cells.len() <= later.len(),
        forall|i: int| first <= i < first + count ==> later[i] == cells[i],
        forall|i: int|
            first + parameters.len() <= i < first + parameters.len() + spans(parameters, count)
                ==> later[i] == cells[i],
    ensures
        parameters_placed(later, later_symbols, parameters, first, count),
    decreases parameters, count,
{
    if count > 0 {
        let slot = first + count - 1;
        let free = first + parameters.len() + spans(parameters, (count - 1) as nat);
        lemma_parameters_placed_are_kept(
            cells,
            symbols,
            later,
            later_symbols,
            parameters,
            first,
            (count - 1) as nat,
        );
        assert(later[slot] == cells[slot]);
        match parameters[count - 1] {
            Term::Simple(simple) => {},
            Term::Compound(compound) => {
                lemma_placed_is_kept(cells, symbols, later, later_symbols, compound, free);
            },
        }
    }
}

impl Layout {
    /// A compound term that is laid out takes exactly the cells of its span,
    /// and lies in them as `placed` says: its own block first, and the block
    /// of every nested compound term behind it, in the order of the
    /// parameters, each right behind the one before.
    pub proof fn lemma_compound_is_placed(self, term: CompoundTerm)
        requires
            self.put_compound(term).cells.len() <= usize::MAX,
            self.put_compound(term).symbols.len() <= usize::MAX,
        ensures
            self.put_compound(term).cells.len() == self.cells.len() + span(term),
            placed(
                self.put_compound(term).cells,
                self.put_compound(term).symbols,
                term,
                self.cells.len() as int,
            ),
        decreases term, 0nat,
    {
        let start = self.cells.len() as int;
        let count = term.parameters@.len();
        let reserved = self.reserve(2 + count);
        let headed = reserved.store(start, cell(HeapTag::Arity, count as int));
        let named = headed.put_simple(term.name, start + 1);
        let done = named.put_parameters(term.parameters@, start + 2, count);
        headed.lemma_put_simple_keeps(term.name, start + 1);
        named.lemma_put_parameters_keeps(term.parameters@, start + 2, count);
        assert(named.symbols.len() <= done.symbols.len());
        match term.name {
            SimpleTerm::Atom(name) => {
                Self::lemma_intern_keeps(headed.symbols, name@);
            },
            SimpleTerm::Variable(name) => {},
        }
        assert(shows_simple(named.cells, named.symbols, term.name, start + 1));
        named.lemma_parameters_are_placed(term.parameters@, start + 2, count);
        assert(done.cells[start] == named.cells[start]);
        assert(done.cells[start + 1] == named.cells[start + 1]);
    }

    /// Parameters that are written to the last cells of the heap take the
    /// cells of their nested blocks above these, and lie as
    /// `parameters_placed` says.
    pub proof fn lemma_parameters_are_placed(self, parameters: Seq<Term>, first: int, count: nat)
        requires
            0 <= first,
            count <= parameters.len(),
            first + parameters.len() == self.cells.len(),
            self.put_parameters(parameters, first, count).cells.len() <= usize::MAX,
            self.put_parameters(parameters, first, count).symbols.len() <= usize::MAX,
        ensures
            self.put_parameters(parameters, first, count).cells.len() == self.cells.len() + spans(
                parameters,
                count,
            ),
            parameters_placed(
                self.put_parameters(parameters, first, count).cells,
                self.put_parameters(parameters, first, count).symbols,
                parameters,
                first,
                count,
            ),
        decreases parameters, count,
    {
        if count > 0 {
            let before = self.put_parameters(parameters, first, (count - 1) as nat);
            let after = self.put_parameters(parameters, first, count);
            let slot = first + count - 1;
            let free = first + parameters.len() + spans(parameters, (count - 1) as nat);
            self.lemma_put_parameters_keeps(parameters, first, (count - 1) as nat);
            match parameters[count - 1] {
                Term::Simple(simple) => {
                    before.lemma_put_simple_keeps(simple, slot);
                },
                Term::Compound(compound) => {
                    before.lemma_put_compound_keeps(compound);
                },
            }
            assert(before.cells.len() <= after.cells.len());
            assert(before.symbols.len() <= after.symbols.len());
            self.lemma_parameters_are_placed(parameters, first, (count - 1) as nat);
            assert(before.cells.len() == free);
            match parameters[count - 1] {
                Term::Simple(simple) => {
                    before.lemma_put_simple_keeps(simple, slot);
                    match simple {
                        SimpleTerm::Atom(name) => {
                            Self::lemma_intern_keeps(before.symbols, name@);
                        },
                        SimpleTerm::Variable(name) => {},
                    }
                    lemma_parameters_placed_are_kept(
                        before.cells,
                        before.symbols,
                        after.cells,
                        after.symbols,
                        parameters,
                        first,
                        (count - 1) as nat,
                    );
                    assert(shows_simple(after.cells, after.symbols, simple, slot));
                },
                Term::Compound(compound) => {
                    let nested = before.put_compound(compound);
                    assert(after.symbols == nested.symbols);
                    before.lemma_compound_is_placed(compound);
                    before.lemma_put_compound_keeps(compound);
                    assert(after.cells == nested.cells.update(
                        slot,
                        cell(HeapTag::Reference, free),
                    ));
                    assert forall|i: int| first <= i < first + count - 1 implies after.cells[i]
                        == before.cells[i] by {
                        assert(nested.cells[i] == before.cells[i]);
                    }
                    assert forall|i: int|
                        first + parameters.len() <= i < free implies after.cells[i]
                        == before.cells[i] by {
                        assert(nested.cells[i] == before.cells[i]);
                    }
                    lemma_parameters_placed_are_kept(
                        before.cells,
                        before.symbols,
                        after.cells,
                        after.symbols,
                        parameters,
                        first,
                        (count - 1) as nat,
                    );
                    lemma_placed_is_kept(
                        nested.cells,
                        nested.symbols,
                        after.cells,
                        after.symbols,
                        compound,
                        free,
                    );
                },
            }
        }
    }
}

/// Of a compound term that lies on the heap, every nested compound
/// parameter has a `Reference` in its cell to an `Arity` cell above the
/// parameters of the term and within the heap, where it lies with all that
/// is nested in it; and of two such parameters the later one starts where
/// the cells of the earlier one end, or above. So the blocks are apart, each
/// in one piece, and in the order in which the parameters are written.
pub proof fn lemma_nested_blocks_lie_apart(
    cells: Seq<HeapEntry>,
    symbols: Seq<Seq<char>>,
    term: CompoundTerm,
    start: int,
    i: int,
    j: int,
)
    requires
        cells.len() <= usize::MAX,
        placed(cells, symbols, term, start),
        0 <= i <= j < term.parameters@.len(),
        term.parameters@[i] is Compound,
        term.parameters@[j] is Compound,
    ensures
        cells[start + 2 + i].tag == HeapTag::Reference,
        cells[start + 2 + j].tag == HeapTag::Reference,
        start + 2 + term.parameters@.len() <= cells[start + 2 + i].data,
        cells[start + 2 + j].data + span(term.parameters@[j]->Compound_0) <= start + span(term)
            <= cells.len(),
        i < j ==> cells[start + 2 + i].data + span(term.parameters@[i]->Compound_0) <= cells[start
            + 2 + j].data,
        cells[cells[start + 2 + i].data as int].tag == HeapTag::Arity,
        placed(cells, symbols, term.parameters@[i]->Compound_0, cells[start + 2 + i].data as int),
{
    let parameters = term.parameters@;
    let count = parameters.len();
    lemma_parameter_is_placed(cells, symbols, parameters, start + 2, count, i);
    lemma_parameter_is_placed(cells, symbols, parameters, start + 2, count, j);
    lemma_spans_grow(parameters, j as nat, count);
    lemma_spans_grow(parameters, i as nat, j as nat);
}

/// Two ground compound terms that are the same term and lie on one heap are
/// alike, cell for cell, as deep as they go.
pub proof fn lemma_same_terms_are_twins(
    cells: Seq<HeapEntry>,
    symbols: Seq<Seq<char>>,
    first: CompoundTerm,
    a: int,
    second: CompoundTerm,
    b: int,
    depth: nat,
)
    requires
        cells.len() <= usize::MAX,
        symbols.no_duplicates(),
        placed(cells, symbols, first, a),
        placed(cells, symbols, second, b),
        same_term(first, second),
        holds_no_variable(first),
        span(first) <= depth,
    ensures
        ground_twins(cells, a, b, depth),
        span(first) == span(second),
    decreases first, 0nat,
{
    let count = first.parameters@.len();
    lemma_parameters_are_twins(
        cells,
        symbols,
        first.parameters@,
        a + 2,
        second.parameters@,
        b + 2,
        count,
        (depth - 1) as nat,
    );
    assert(resolve(cells, a, cells.len()) == Some(a));
    assert(resolve(cells, b, cells.len()) == Some(b));
    if count > 0 {
        lemma_parameter_is_placed(cells, symbols, first.parameters@, a + 2, count, 0);
        lemma_parameter_is_placed(cells, symbols, second.parameters@, b + 2, count, 0);
        lemma_parameters_hold_no_variable(first.parameters@, count, 0);
        lemma_parameters_are_the_same(first.parameters@, second.parameters@, count, 0);
    }
    assert(!is_wrapped(cells, a));
    assert(!is_wrapped(cells, b));
    assert(block_width(cells, a) == count + 1);
    assert(block_fits(cells, a));
    assert(block_fits(cells, b));
    assert(same_functor(cells, a + 1, b + 1));
}

/// Of parameters that hold no variable, none holds one.
pub proof fn lemma_parameters_hold_no_variable(parameters: Seq<Term>, count: nat, j: int)
    requires
        hold_no_variable(parameters, count),
        0 <= j < count <= parameters.len(),
    ensures
        match parameters[j] {
            Term::Simple(simple) => simple is Atom,
            Term::Compound(compound) => holds_no_variable(compound),
        },
    decreases count,
{
    if j < count - 1 {
        lemma_parameters_hold_no_variable(parameters, (count - 1) as nat, j);
    }
}

/// Of parameters that are the same terms, each is the same term as the one
/// in its place.
pub proof fn lemma_parameters_are_the_same(
    first: Seq<Term>,
    second: Seq<Term>,
    count: nat,
    j: int,
)
    requires
        same_terms(first, second, count),
        0 <= j < count,
        count <= first.len(),
        count <= second.len(),
    ensures
        match (first[j], second[j]) {
            (Term::Simple(one), Term::Simple(other)) => one@ == other@,
            (Term::Compound(one), Term::Compound(other)) => same_term(one, other),
            _ => false,
        },
    decreases count,
{
    if j < count - 1 {
        lemma_parameters_are_the_same(first, second, (count - 1) as nat, j);
    }
}

/// The parameters of two ground compound terms that are the same term are
/// alike pair by pair, and their nested blocks take as many cells.
pub proof fn lemma_parameters_are_twins(
    cells: Seq<HeapEntry>,
    symbols: Seq<Seq<char>>,
    first: Seq<Term>,
    a: int,
    second: Seq<Term>,
    b: int,
    count: nat,
    depth: nat,
)
    requires
        cells.len() <= usize::MAX,
        symbols.no_duplicates(),
        0 <= a,
        0 <= b,
        a + first.len() + spans(first, count) <= cells.len(),
        b + second.len() + spans(second, count) <= cells.len(),
        count <= first.len(),
        count <= second.len(),
        parameters_placed(cells, symbols, first, a, count),
        parameters_placed(cells, symbols, second, b, count),
        same_terms(first, second, count),
        hold_no_variable(first, count),
        spans(first, count) <= depth,
    ensures
        ground_twin_arguments(cells, a, b, count, depth),
        spans(first, count) == spans(second, count),
    decreases first, count,
{
    if count > 0 {
        let x = a + count - 1;
        let y = b + count - 1;
        lemma_spans_grow(first, (count - 1) as nat, count);
        lemma_spans_grow(second, (count - 1) as nat, count);
        lemma_parameters_are_twins(
            cells,
            symbols,
            first,
            a,
            second,
            b,
            (count - 1) as nat,
            depth,
        );
        match (first[count - 1], second[count - 1]) {
            (Term::Simple(one), Term::Simple(other)) => {
                assert(resolve(cells, x, cells.len()) == Some(x));
                assert(resolve(cells, y, cells.len()) == Some(y));
                assert(cells[x].data == cells[y].data);
                assert(ground_twins(cells, x, y, depth));
            },
            (Term::Compound(one), Term::Compound(other)) => {
                let to = a + first.len() + spans(first, (count - 1) as nat);
                let from = b + second.len() + spans(second, (count - 1) as nat);
                assert(placed(cells, symbols, one, to));
                assert(placed(cells, symbols, other, from));
                lemma_same_terms_are_twins(cells, symbols, one, to, other, from, depth);
                assert(resolve(cells, to, cells.len()) == Some(to));
                assert(resolve(cells, from, cells.len()) == Some(from));
                assert(resolve(cells, to, (cells.len() - 1) as nat) == Some(to));
                assert(resolve(cells, from, (cells.len() - 1) as nat) == Some(from));
                assert(cells[x] == cell(HeapTag::Reference, to));
                assert(cells[y] == cell(HeapTag::Reference, from));
                assert(resolve(cells, x, cells.len()) == Some(to));
                assert(resolve(cells, y, cells.len()) == Some(from));
                assert(ground_twins(cells, to, from, depth));
                assert(ground_twins(cells, x, y, depth));
            },
            _ => {},
        }
    }
}

/// A ground compound term that is laid out twice in one compilation
/// unifies with itself: the unification succeeds, binds nothing and leaves
/// heap and trail as they are. The second time the term may be laid out in
/// any state that still holds the cells and the names that were there after
/// the first time, whatever was compiled in between.
pub proof fn lemma_compiled_twice_unifies(
    early: Layout,
    first: CompoundTerm,
    later: Layout,
    second: CompoundTerm,
    trail: Seq<usize>,
    trail_limit: nat,
)
    requires
        later.put_compound(second).cells.len() <= usize::MAX,
        later.put_compound(second).symbols.len() <= usize::MAX,
        early.put_compound(first).cells.is_prefix_of(later.cells),
        early.put_compound(first).symbols.is_prefix_of(later.symbols),
        later.symbols.no_duplicates(),
        same_term(first, second),
        holds_no_variable(first),
    ensures
        unify_terms(
            Store { cells: later.put_compound(second).cells, trail },
            early.cells.len() as int,
            later.cells.len() as int,
            later.put_compound(second).cells.len(),
            trail_limit,
        ) == (
            Store { cells: later.put_compound(second).cells, trail },
            Ok::<bool, EngineError>(true),
        ),
{
    let once = early.put_compound(first);
    let twice = later.put_compound(second);
    let a = early.cells.len() as int;
    let b = later.cells.len() as int;
    later.lemma_put_compound_keeps(second);
    assert(once.cells.len() <= twice.cells.len());
    assert(once.symbols.len() <= twice.symbols.len());
    assert(once.symbols.is_prefix_of(twice.symbols));
    early.lemma_compound_is_placed(first);
    later.lemma_compound_is_placed(second);
    assert forall|i: int| a <= i < a + span(first) implies twice.cells[i] == once.cells[i] by {
        assert(later.cells[i] == once.cells[i]);
    }
    lemma_placed_is_kept(once.cells, once.symbols, twice.cells, twice.symbols, first, a);
    lemma_same_terms_are_twins(
        twice.cells,
        twice.symbols,
        first,
        a,
        second,
        b,
        twice.cells.len(),
    );
    lemma_unify_ground_twins(
        Store { cells: twice.cells, trail },
        a,
        b,
        twice.cells.len(),
        trail_limit,
    );
}

} // verus!
