//! Reading answers: the term that a cell stands for under the bindings on
//! the heap.

use vstd::prelude::*;
use crate::block::{block_cells, block_fits, block_width, is_wrapped};
use crate::compiler::{QueryVariable, variables_view};
use crate::error::EngineError;
use crate::heap::{Heap, HeapEntry, HeapIndex, HeapTag};
use crate::store::{resolve, resolve_at};
use crate::symbols::SymbolTable;

verus! {

/// A term read back from the heap.
#[derive(Debug, PartialEq, Eq)]
pub enum Value {
    /// An atom, by its name.
    Atom(String),
    /// A number.
    Number(usize),
    /// A variable that nothing is bound to, by the position of its cell.
    Unbound(HeapIndex),
    /// A compound term: its functor, then its arguments.
    Compound(Vec<Value>),
}

/// A term read back from the heap, as plain values.
pub enum ValueView {
    Atom(Seq<char>),
    Number(usize),
    Unbound(HeapIndex),
    Compound(Seq<ValueView>),
}

/// The value as plain values.
pub open spec fn value_view(value: Value) -> ValueView
    decreases value, 0nat,
{
    match value {
        Value::Atom(name) => ValueView::Atom(name@),
        Value::Number(number) => ValueView::Number(number),
        Value::Unbound(at) => ValueView::Unbound(at),
        Value::Compound(parts) => ValueView::Compound(values_view(parts@, parts@.len())),
    }
}

/// The first `count` of `values` as plain values.
pub open spec fn values_view(values: Seq<Value>, count: nat) -> Seq<ValueView>
    decreases values, count,
{
    if count == 0 || count > values.len() {
        Seq::empty()
    } else {
        values_view(values, (count - 1) as nat).push(value_view(values[count - 1]))
    }
}

impl View for Value {
    type V = ValueView;

    open spec fn view(&self) -> ValueView {
        value_view(*self)
    }
}

/// Only the values that are counted matter to their views.
pub proof fn lemma_values_view_of_prefix(values: Seq<Value>, longer: Seq<Value>, count: nat)
    requires
        count <= values.len() <= longer.len(),
        forall|i: int| 0 <= i < count ==> values[i] == longer[i],
    ensures
        values_view(values, count) == values_view(longer, count),
    decreases count,
{
    if count > 0 {
        lemma_values_view_of_prefix(values, longer, (count - 1) as nat);
    }
}

/// The term that the cell at `at` stands for. The cell is resolved first.
/// An unbound variable is read as itself, a constant as the atom of that
/// name, a number as itself. A block is read as a compound term of the
/// values of its cells, the functor first; an atom or variable behind an
/// `Arity` cell of its own is read as that atom or variable. Blocks may
/// nest `depth` deep.
pub open spec fn read_value(
    cells: Seq<HeapEntry>,
    symbols: Seq<Seq<char>>,
    at: int,
    depth: nat,
) -> Result<ValueView, EngineError>
    decreases depth, 0nat, 0nat,
{
    match resolve(cells, at, cells.len()) {
        None => Err(EngineError::InternalInvariantViolation),
        Some(end) => match cells[end].tag {
            HeapTag::Variable => Ok(ValueView::Unbound(end as usize)),
            HeapTag::Constant => if cells[end].data < symbols.len() {
                Ok(ValueView::Atom(symbols[cells[end].data as int]))
            } else {
                Err(EngineError::InternalInvariantViolation)
            },
            HeapTag::Number => Ok(ValueView::Number(cells[end].data)),
            HeapTag::Arity => if !block_fits(cells, end) {
                Err(EngineError::InternalInvariantViolation)
            } else if depth == 0 {
                Err(EngineError::ResourceExhausted)
            } else if is_wrapped(cells, end) {
                read_value(cells, symbols, end + 1, (depth - 1) as nat)
            } else {
                match read_values(
                    cells,
                    symbols,
                    end + 1,
                    block_width(cells, end) as nat,
                    (depth - 1) as nat,
                ) {
                    Ok(parts) => Ok(ValueView::Compound(parts)),
                    Err(error) => Err(error),
                }
            },
            _ => Err(EngineError::InternalInvariantViolation),
        },
    }
}

/// The terms that the `count` cells from `from` on stand for, in order, or
/// why the first of them that cannot be read cannot.
pub open spec fn read_values(
    cells: Seq<HeapEntry>,
    symbols: Seq<Seq<char>>,
    from: int,
    count: nat,
    depth: nat,
) -> Result<Seq<ValueView>, EngineError>
    decreases depth, 1nat, count,
{
    if count == 0 {
        Ok(Seq::empty())
    } else {
        match read_values(cells, symbols, from, (count - 1) as nat, depth) {
            Err(error) => Err(error),
            Ok(before) => match read_value(cells, symbols, from + count - 1, depth) {
                Err(error) => Err(error),
                Ok(value) => Ok(before.push(value)),
            },
        }
    }
}

/// Once a cell cannot be read, the cells after it are not looked at.
pub proof fn lemma_read_values_stops(
    cells: Seq<HeapEntry>,
    symbols: Seq<Seq<char>>,
    from: int,
    stopped: nat,
    count: nat,
    depth: nat,
)
    requires
        stopped <= count,
        read_values(cells, symbols, from, stopped, depth) is Err,
    ensures
        read_values(cells, symbols, from, count, depth) == read_values(
            cells,
            symbols,
            from,
            stopped,
            depth,
        ),
    decreases count,
{
    if count > stopped {
        lemma_read_values_stops(cells, symbols, from, stopped, (count - 1) as nat, depth);
    }
}

/// Reads the term that the cell at `at` stands for under the bindings on
/// the heap.
pub fn read_term(heap: &Heap, symbol_table: &SymbolTable, at: HeapIndex, depth: usize) -> (read:
    Result<Value, EngineError>)
    ensures
        match read {
            Ok(value) => read_value(heap@, symbol_table@, at as int, depth as nat) == Ok::<
                ValueView,
                EngineError,
            >(value@),
            Err(error) => read_value(heap@, symbol_table@, at as int, depth as nat) == Err::<
                ValueView,
                EngineError,
            >(error),
        },
    decreases depth,
{
    let end = match resolve_at(heap, at) {
        Some(end) => end,
        None => {
            return Err(EngineError::InternalInvariantViolation);
        },
    };
    let entry = heap.read(end);
    match entry.tag {
        HeapTag::Variable => Ok(Value::Unbound(end)),
        HeapTag::Constant => {
            if entry.data < symbol_table.len() {
                Ok(Value::Atom(symbol_table.get(entry.data).to_owned()))
            } else {
                Err(EngineError::InternalInvariantViolation)
            }
        },
        HeapTag::Number => Ok(Value::Number(entry.data)),
        HeapTag::Arity => {
            let width = match block_cells(heap, end) {
                Some(width) => width,
                None => {
                    return Err(EngineError::InternalInvariantViolation);
                },
            };
            if depth == 0 {
                return Err(EngineError::ResourceExhausted);
            }
            proof {
                heap.lemma_len_fits();
            }
            if entry.data == 1 && width == 1 {
                return read_term(heap, symbol_table, end + 1, depth - 1);
            }
            let mut parts: Vec<Value> = Vec::new();
            let mut i: usize = 0;
            while i < width
                invariant
                    i <= width,
                    end + 1 + width <= heap@.len() <= usize::MAX,
                    depth > 0,
                    read_values(heap@, symbol_table@, end + 1, i as nat, (depth - 1) as nat) == Ok::<
                        Seq<ValueView>,
                        EngineError,
                    >(values_view(parts@, parts@.len())),
                    read_value(heap@, symbol_table@, at as int, depth as nat) == match read_values(
                        heap@,
                        symbol_table@,
                        end + 1,
                        width as nat,
                        (depth - 1) as nat,
                    ) {
                        Ok(parts) => Ok::<ValueView, EngineError>(ValueView::Compound(parts)),
                        Err(error) => Err(error),
                    },
                decreases width - i,
            {
                match read_term(heap, symbol_table, end + 1 + i, depth - 1) {
                    Ok(value) => {
                        proof {
                            lemma_values_view_of_prefix(
                                parts@,
                                parts@.push(value),
                                parts@.len(),
                            );
                        }
                        parts.push(value);
                    },
                    Err(error) => {
                        proof {
                            lemma_read_values_stops(
                                heap@,
                                symbol_table@,
                                end + 1,
                                (i + 1) as nat,
                                width as nat,
                                (depth - 1) as nat,
                            );
                        }
                        return Err(error);
                    },
                }
                i += 1;
            }
            Ok(Value::Compound(parts))
        },
        _ => Err(EngineError::InternalInvariantViolation),
    }
}

/// A variable of a query and the term that it stands for.
#[derive(Debug, PartialEq, Eq)]
pub struct Binding {
    pub name: String,
    pub value: Value,
}

impl View for Binding {
    type V = (Seq<char>, ValueView);

    open spec fn view(&self) -> (Seq<char>, ValueView) {
        (self.name@, self.value@)
    }
}

/// The bindings as plain values.
pub open spec fn bindings_view(bindings: Seq<Binding>) -> Seq<(Seq<char>, ValueView)> {
    Seq::new(bindings.len(), |i: int| bindings[i]@)
}

/// The terms that the first `count` of `variables` stand for, each with the
/// name of its variable, or why the first of them that cannot be read
/// cannot.
pub open spec fn read_bindings(
    cells: Seq<HeapEntry>,
    symbols: Seq<Seq<char>>,
    variables: Seq<(Seq<char>, HeapIndex)>,
    count: nat,
    depth: nat,
) -> Result<Seq<(Seq<char>, ValueView)>, EngineError>
    decreases count,
{
    if count == 0 || count > variables.len() {
        Ok(Seq::empty())
    } else {
        match read_bindings(cells, symbols, variables, (count - 1) as nat, depth) {
            Err(error) => Err(error),
            Ok(before) => match read_value(cells, symbols, variables[count - 1].1 as int, depth) {
                Err(error) => Err(error),
                Ok(value) => Ok(before.push((variables[count - 1].0, value))),
            },
        }
    }
}

/// Once a variable cannot be read, the variables after it are not looked
/// at.
pub proof fn lemma_read_bindings_stops(
    cells: Seq<HeapEntry>,
    symbols: Seq<Seq<char>>,
    variables: Seq<(Seq<char>, HeapIndex)>,
    stopped: nat,
    count: nat,
    depth: nat,
)
    requires
        stopped <= count <= variables.len(),
        read_bindings(cells, symbols, variables, stopped, depth) is Err,
    ensures
        read_bindings(cells, symbols, variables, count, depth) == read_bindings(
            cells,
            symbols,
            variables,
            stopped,
            depth,
        ),
    decreases count,
{
    if count > stopped {
        lemma_read_bindings_stops(cells, symbols, variables, stopped, (count - 1) as nat, depth);
    }
}

/// Reads the term that each of `variables` stands for under the bindings on
/// the heap.
pub fn read_variables(
    heap: &Heap,
    symbol_table: &SymbolTable,
    variables: &Vec<QueryVariable>,
    depth: usize,
) -> (read: Result<Vec<Binding>, EngineError>)
    ensures
        match read {
            Ok(bindings) => read_bindings(
                heap@,
                symbol_table@,
                variables_view(variables@),
                variables@.len(),
                depth as nat,
            ) == Ok::<Seq<(Seq<char>, ValueView)>, EngineError>(bindings_view(bindings@)),
            Err(error) => read_bindings(
                heap@,
                symbol_table@,
                variables_view(variables@),
                variables@.len(),
                depth as nat,
            ) == Err::<Seq<(Seq<char>, ValueView)>, EngineError>(error),
        },
{
    let mut bindings: Vec<Binding> = Vec::new();
    assert(bindings_view(bindings@) =~= Seq::<(Seq<char>, ValueView)>::empty());
    let mut i: usize = 0;
    while i < variables.len()
        invariant
            i <= variables@.len(),
            read_bindings(
                heap@,
                symbol_table@,
                variables_view(variables@),
                i as nat,
                depth as nat,
            ) == Ok::<Seq<(Seq<char>, ValueView)>, EngineError>(bindings_view(bindings@)),
        decreases variables@.len() - i,
    {
        let ghost before = bindings_view(bindings@);
        assert(variables_view(variables@)[i as int] == variables@[i as int]@);
        match read_term(heap, symbol_table, variables[i].cell, depth) {
            Ok(value) => {
                bindings.push(Binding { name: variables[i].name.clone(), value });
                assert(bindings_view(bindings@) =~= before.push(
                    (variables@[i as int].name@, value@),
                ));
            },
            Err(error) => {
                proof {
                    lemma_read_bindings_stops(
                        heap@,
                        symbol_table@,
                        variables_view(variables@),
                        (i + 1) as nat,
                        variables@.len() as nat,
                        depth as nat,
                    );
                }
                return Err(error);
            },
        }
        i += 1;
    }
    Ok(bindings)
}

} // verus!
