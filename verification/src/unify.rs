//! Unification of two terms on the heap.

use vstd::prelude::*;
use crate::block::{block_cells, block_fits, block_width};
use crate::error::EngineError;
use crate::heap::{Heap, HeapEntry, HeapIndex, HeapTag};
use crate::store::{bind, resolve, resolve_at, Store};

verus! {

/// The store after an attempt to unify, and how the attempt ended: whether
/// the terms unify, or why that could not be settled.
pub type Unified = (Store, Result<bool, EngineError>);

/// The entry one step on from `entry`: the cell it names if it is a variable
/// occurrence, else the entry itself.
pub open spec fn one_hop(cells: Seq<HeapEntry>, entry: HeapEntry) -> HeapEntry {
    if entry.is_var_or_unify() && entry.data < cells.len() {
        cells[entry.data as int]
    } else {
        entry
    }
}

/// Whether the functor cells at `a` and `b` hold the same functor, each
/// taken one step on.
pub open spec fn same_functor(cells: Seq<HeapEntry>, a: int, b: int) -> bool {
    one_hop(cells, cells[a]) == one_hop(cells, cells[b])
}

/// The variable at `variable` bound to the term at `target`, unless the
/// trail is full.
pub open spec fn bind_within(store: Store, variable: int, target: int, trail_limit: nat) -> Unified {
    if store.trail.len() >= trail_limit {
        (store, Err(EngineError::ResourceExhausted))
    } else {
        (store.bind(variable, target), Ok(true))
    }
}

/// Unification of the terms at `a` and `b`.
///
/// Both are resolved first. If they resolve to the same cell, they unify
/// and nothing is bound. If one is an unbound variable, it is bound to the
/// other; of two unbound variables the one higher up is bound to the one
/// lower down. Two constants or two numbers unify if they are equal. Two
/// blocks unify if they have the same argument count, the same number of
/// cells and the same functor, and their arguments unify pair by pair, in
/// order; the first pair that does not unify ends the attempt, and what has
/// been bound by then stays bound. Anything else does not unify.
///
/// Arguments may nest `depth` blocks deep, and the trail may grow to
/// `trail_limit` entries.
pub open spec fn unify_terms(store: Store, a: int, b: int, depth: nat, trail_limit: nat) -> Unified
    decreases depth, 0nat, 0nat,
{
    let cells = store.cells;
    match (resolve(cells, a, cells.len()), resolve(cells, b, cells.len())) {
        (Some(x), Some(y)) => {
            if x == y {
                (store, Ok(true))
            } else if cells[x].tag == HeapTag::Variable && cells[y].tag == HeapTag::Variable {
                if x > y {
                    bind_within(store, x, y, trail_limit)
                } else {
                    bind_within(store, y, x, trail_limit)
                }
            } else if cells[x].tag == HeapTag::Variable {
                bind_within(store, x, y, trail_limit)
            } else if cells[y].tag == HeapTag::Variable {
                bind_within(store, y, x, trail_limit)
            } else if cells[x].tag == HeapTag::Constant && cells[y].tag == HeapTag::Constant {
                (store, Ok(cells[x].data == cells[y].data))
            } else if cells[x].tag == HeapTag::Number && cells[y].tag == HeapTag::Number {
                (store, Ok(cells[x].data == cells[y].data))
            } else if cells[x].tag == HeapTag::Arity && cells[y].tag == HeapTag::Arity {
                if !block_fits(cells, x) || !block_fits(cells, y) {
                    (store, Err(EngineError::InternalInvariantViolation))
                } else if cells[x].data != cells[y].data || block_width(cells, x) != block_width(
                    cells,
                    y,
                ) || !same_functor(cells, x + 1, y + 1) {
                    (store, Ok(false))
                } else if block_width(cells, x) == 1 {
                    (store, Ok(true))
                } else if depth == 0 {
                    (store, Err(EngineError::ResourceExhausted))
                } else {
                    unify_arguments(
                        store,
                        x + 2,
                        y + 2,
                        (block_width(cells, x) - 1) as nat,
                        (depth - 1) as nat,
                        trail_limit,
                    )
                }
            } else {
                (store, Ok(false))
            }
        },
        _ => (store, Err(EngineError::InternalInvariantViolation)),
    }
}

/// Unification of the first `count` pairs of the arguments that start at
/// `a` and `b`, in order, up to the first pair that does not unify.
pub open spec fn unify_arguments(
    store: Store,
    a: int,
    b: int,
    count: nat,
    depth: nat,
    trail_limit: nat,
) -> Unified
    decreases depth, 1nat, count,
{
    if count == 0 {
        (store, Ok(true))
    } else {
        let before = unify_arguments(store, a, b, (count - 1) as nat, depth, trail_limit);
        if before.1 == Ok::<bool, EngineError>(true) {
            unify_terms(before.0, a + count - 1, b + count - 1, depth, trail_limit)
        } else {
            before
        }
    }
}

/// Once a pair of arguments has not unified, the pairs after it are not
/// looked at.
pub proof fn lemma_arguments_stop(
    store: Store,
    a: int,
    b: int,
    stopped: nat,
    count: nat,
    depth: nat,
    trail_limit: nat,
)
    requires
        stopped <= count,
        unify_arguments(store, a, b, stopped, depth, trail_limit).1 != Ok::<bool, EngineError>(
            true,
        ),
    ensures
        unify_arguments(store, a, b, count, depth, trail_limit) == unify_arguments(
            store,
            a,
            b,
            stopped,
            depth,
            trail_limit,
        ),
    decreases count,
{
    if count > stopped {
        lemma_arguments_stop(store, a, b, stopped, (count - 1) as nat, depth, trail_limit);
    }
}

/// Whether the two functor cells hold the same functor.
fn functors_match(heap: &Heap, a: HeapIndex, b: HeapIndex) -> (same: bool)
    requires
        a < heap@.len(),
        b < heap@.len(),
    ensures
        same == same_functor(heap@, a as int, b as int),
{
    let top = heap.len();
    let mut left = heap.read(a);
    if left.is_var_or_unify() && left.data < top {
        left = heap.read(left.data);
    }
    let mut right = heap.read(b);
    if right.is_var_or_unify() && right.data < top {
        right = heap.read(right.data);
    }
    left == right
}

/// Binds the variable at `variable` to the term at `target` if the trail
/// has room for one more entry.
fn bind_if_room(
    heap: &mut Heap,
    trail: &mut Vec<HeapIndex>,
    variable: HeapIndex,
    target: HeapIndex,
    trail_limit: usize,
) -> (outcome: Result<bool, EngineError>)
    requires
        variable < old(heap)@.len(),
        target < old(heap)@.len(),
    ensures
        (Store { cells: final(heap)@, trail: final(trail)@ }, outcome) == bind_within(
            Store { cells: old(heap)@, trail: old(trail)@ },
            variable as int,
            target as int,
            trail_limit as nat,
        ),
        final(heap)@.len() == old(heap)@.len(),
{
    if trail.len() >= trail_limit {
        Err(EngineError::ResourceExhausted)
    } else {
        bind(heap, trail, variable, target);
        Ok(true)
    }
}

/// Unifies the terms at `a` and `b`, binding variables on the heap and
/// recording each binding on the trail. Returns whether the terms unify.
/// Bindings made before a failure are left in place: taking them back is up
/// to the caller, who knows how long the trail was.
///
/// The arguments of the terms are followed as deep as the heap has cells.
/// Only a term that runs in a circle nests deeper: the heap has no room for
/// such a term written out, and the unification ends with
/// `ResourceExhausted`.
pub fn unify(
    heap: &mut Heap,
    trail: &mut Vec<HeapIndex>,
    a: HeapIndex,
    b: HeapIndex,
    trail_limit: usize,
) -> (outcome: Result<bool, EngineError>)
    ensures
        (Store { cells: final(heap)@, trail: final(trail)@ }, outcome) == unify_terms(
            Store { cells: old(heap)@, trail: old(trail)@ },
            a as int,
            b as int,
            old(heap)@.len(),
            trail_limit as nat,
        ),
        final(heap)@.len() == old(heap)@.len(),
{
    let depth = heap.len();
    unify_within(heap, trail, a, b, depth, trail_limit)
}

/// Unifies the terms at `a` and `b` as `unify` does, following their
/// arguments `depth` deep.
fn unify_within(
    heap: &mut Heap,
    trail: &mut Vec<HeapIndex>,
    a: HeapIndex,
    b: HeapIndex,
    depth: usize,
    trail_limit: usize,
) -> (outcome: Result<bool, EngineError>)
    ensures
        (Store { cells: final(heap)@, trail: final(trail)@ }, outcome) == unify_terms(
            Store { cells: old(heap)@, trail: old(trail)@ },
            a as int,
            b as int,
            depth as nat,
            trail_limit as nat,
        ),
        final(heap)@.len() == old(heap)@.len(),
    decreases depth,
{
    let ghost start = Store { cells: heap@, trail: trail@ };
    let x = match resolve_at(heap, a) {
        Some(x) => x,
        None => {
            return Err(EngineError::InternalInvariantViolation);
        },
    };
    let y = match resolve_at(heap, b) {
        Some(y) => y,
        None => {
            return Err(EngineError::InternalInvariantViolation);
        },
    };
    if x == y {
        return Ok(true);
    }
    let left = heap.read(x);
    let right = heap.read(y);
    if left.tag == HeapTag::Variable && right.tag == HeapTag::Variable {
        if x > y {
            bind_if_room(heap, trail, x, y, trail_limit)
        } else {
            bind_if_room(heap, trail, y, x, trail_limit)
        }
    } else if left.tag == HeapTag::Variable {
        bind_if_room(heap, trail, x, y, trail_limit)
    } else if right.tag == HeapTag::Variable {
        bind_if_room(heap, trail, y, x, trail_limit)
    } else if left.tag == HeapTag::Constant && right.tag == HeapTag::Constant {
        Ok(left.data == right.data)
    } else if left.tag == HeapTag::Number && right.tag == HeapTag::Number {
        Ok(left.data == right.data)
    } else if left.tag == HeapTag::Arity && right.tag == HeapTag::Arity {
        proof {
            heap.lemma_len_fits();
        }
        let left_width = block_cells(heap, x);
        let right_width = block_cells(heap, y);
        if left_width.is_none() || right_width.is_none() {
            return Err(EngineError::InternalInvariantViolation);
        }
        let width = left_width.unwrap();
        if left.data != right.data || width != right_width.unwrap() || !functors_match(
            heap,
            x + 1,
            y + 1,
        ) {
            return Ok(false);
        }
        if width == 1 {
            return Ok(true);
        }
        if depth == 0 {
            return Err(EngineError::ResourceExhausted);
        }
        let count = width - 1;
        let mut i: usize = 0;
        while i < count
            invariant
                i <= count,
                x + 2 + count <= heap@.len(),
                y + 2 + count <= heap@.len(),
                heap@.len() == start.cells.len(),
                heap@.len() <= usize::MAX,
                depth > 0,
                start == (Store { cells: old(heap)@, trail: old(trail)@ }),
                unify_terms(start, a as int, b as int, depth as nat, trail_limit as nat)
                    == unify_arguments(
                    start,
                    x + 2,
                    y + 2,
                    count as nat,
                    (depth - 1) as nat,
                    trail_limit as nat,
                ),
                (Store { cells: heap@, trail: trail@ }, Ok::<bool, EngineError>(true))
                    == unify_arguments(
                    start,
                    x + 2,
                    y + 2,
                    i as nat,
                    (depth - 1) as nat,
                    trail_limit as nat,
                ),
            decreases count - i,
        {
            let ghost before = Store { cells: heap@, trail: trail@ };
            let outcome = unify_within(heap, trail, x + 2 + i, y + 2 + i, depth - 1, trail_limit);
            i += 1;
            proof {
                let folded = unify_arguments(
                    start,
                    x + 2,
                    y + 2,
                    (i - 1) as nat,
                    (depth - 1) as nat,
                    trail_limit as nat,
                );
                assert(folded == (before, Ok::<bool, EngineError>(true)));
                assert(unify_arguments(
                    start,
                    x + 2,
                    y + 2,
                    i as nat,
                    (depth - 1) as nat,
                    trail_limit as nat,
                ) == (Store { cells: heap@, trail: trail@ }, outcome));
            }
            match outcome {
                Ok(true) => {},
                _ => {
                    proof {
                        lemma_arguments_stop(
                            start,
                            x + 2,
                            y + 2,
                            i as nat,
                            count as nat,
                            (depth - 1) as nat,
                            trail_limit as nat,
                        );
                    }
                    return outcome;
                },
            }
        }
        Ok(true)
    } else {
        Ok(false)
    }
}

} // verus!
