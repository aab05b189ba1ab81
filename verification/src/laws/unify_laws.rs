//! What holds of every unification.

use vstd::prelude::*;
use crate::block::{block_fits, block_width};
use crate::error::EngineError;
use crate::heap::{HeapEntry, HeapTag};
use crate::layout::cell;
use crate::store::{is_unbound, resolve, Store};
use crate::unify::{same_functor, unify_arguments, unify_terms};

verus! {

/// Whether the terms at `a` and `b` are alike and hold no variable: they
/// resolve to equal constants, to equal numbers, or to blocks with the same
/// argument count, number of cells and functor whose arguments are alike in
/// the same way, pair by pair, nested at most `depth` deep.
pub open spec fn ground_twins(cells: Seq<HeapEntry>, a: int, b: int, depth: nat) -> bool
    decreases depth, 0nat, 0nat,
{
    match (resolve(cells, a, cells.len()), resolve(cells, b, cells.len())) {
        (Some(x), Some(y)) => {
            ||| cells[x].tag == HeapTag::Constant && cells[y].tag == HeapTag::Constant
                && cells[x].data == cells[y].data
            ||| cells[x].tag == HeapTag::Number && cells[y].tag == HeapTag::Number && cells[x].data
                == cells[y].data
            ||| {
                &&& cells[x].tag == HeapTag::Arity
                &&& cells[y].tag == HeapTag::Arity
                &&& block_fits(cells, x)
                &&& block_fits(cells, y)
                &&& cells[x].data == cells[y].data
                &&& block_width(cells, x) == block_width(cells, y)
                &&& same_functor(cells, x + 1, y + 1)
                &&& block_width(cells, x) > 1 ==> depth > 0 && ground_twin_arguments(
                    cells,
                    x + 2,
                    y + 2,
                    (block_width(cells, x) - 1) as nat,
                    (depth - 1) as nat,
                )
            }
        },
        _ => false,
    }
}

/// Whether the first `count` pairs of the arguments that start at `a` and
/// `b` are alike and hold no variable.
pub open spec fn ground_twin_arguments(
    cells: Seq<HeapEntry>,
    a: int,
    b: int,
    count: nat,
    depth: nat,
) -> bool
    decreases depth, 1nat, count,
{
    count == 0 || (ground_twin_arguments(cells, a, b, (count - 1) as nat, depth) && ground_twins(
        cells,
        a + count - 1,
        b + count - 1,
        depth,
    ))
}

/// Where a walk ends: within the heap, at an unbound variable or at a cell
/// that points nowhere.
pub proof fn lemma_resolve_ends(cells: Seq<HeapEntry>, at: int, hops: nat)
    requires
        resolve(cells, at, hops) is Some,
    ensures
        ({
            let end = resolve(cells, at, hops)->0;
            &&& 0 <= end < cells.len()
            &&& cells[end].tag != HeapTag::Unify
            &&& cells[end].tag != HeapTag::Reference
            &&& cells[end].tag == HeapTag::Variable ==> cells[end].data == end
        }),
    decreases hops,
{
    if cells[at].tag == HeapTag::Unify || cells[at].tag == HeapTag::Reference {
        lemma_resolve_ends(cells, cells[at].data as int, (hops - 1) as nat);
    }
}

/// Unifying a term with itself succeeds and binds nothing: if both sides
/// resolve to the same cell, heap and trail stay as they are.
pub proof fn lemma_unify_same_cell(store: Store, a: int, b: int, depth: nat, trail_limit: nat)
    requires
        resolve(store.cells, a, store.cells.len()) is Some,
        resolve(store.cells, a, store.cells.len()) == resolve(store.cells, b, store.cells.len()),
    ensures
        unify_terms(store, a, b, depth, trail_limit) == (store, Ok::<bool, EngineError>(true)),
{
}

/// Unifying two terms that are alike and hold no variable succeeds and
/// binds nothing: heap and trail stay as they are.
pub proof fn lemma_unify_ground_twins(store: Store, a: int, b: int, depth: nat, trail_limit: nat)
    requires
        ground_twins(store.cells, a, b, depth),
    ensures
        unify_terms(store, a, b, depth, trail_limit) == (store, Ok::<bool, EngineError>(true)),
    decreases depth, 0nat, 0nat,
{
    let cells = store.cells;
    match (resolve(cells, a, cells.len()), resolve(cells, b, cells.len())) {
        (Some(x), Some(y)) => {
            lemma_resolve_ends(cells, a, cells.len());
            lemma_resolve_ends(cells, b, cells.len());
            if x != y && cells[x].tag == HeapTag::Arity && block_width(cells, x) > 1 {
                lemma_unify_ground_arguments(
                    store,
                    x + 2,
                    y + 2,
                    (block_width(cells, x) - 1) as nat,
                    (depth - 1) as nat,
                    trail_limit,
                );
            }
        },
        _ => {},
    }
}

/// Unifying arguments that are alike pair by pair and hold no variable
/// succeeds and binds nothing.
pub proof fn lemma_unify_ground_arguments(
    store: Store,
    a: int,
    b: int,
    count: nat,
    depth: nat,
    trail_limit: nat,
)
    requires
        ground_twin_arguments(store.cells, a, b, count, depth),
    ensures
        unify_arguments(store, a, b, count, depth, trail_limit) == (
            store,
            Ok::<bool, EngineError>(true),
        ),
    decreases depth, 1nat, count,
{
    if count > 0 {
        lemma_unify_ground_arguments(store, a, b, (count - 1) as nat, depth, trail_limit);
        lemma_unify_ground_twins(store, a + count - 1, b + count - 1, depth, trail_limit);
    }
}

impl Store {
    /// Whether `later` is this store with more bindings, all of which the
    /// trail can take back: unwinding `later` to the length this trail has
    /// gives this store again, cell for cell.
    pub open spec fn taken_back_from(self, later: Store) -> bool {
        &&& self.trail.len() <= later.trail.len()
        &&& later.cells.len() == self.cells.len()
        &&& later.unwind(self.trail.len() as int) == self
    }

    /// Unwinding to a mark by way of a higher mark gives the same store as
    /// unwinding to the mark at once.
    pub proof fn lemma_unwind_in_stages(self, upper: int, lower: int)
        requires
            0 <= lower <= upper,
        ensures
            self.unwind(upper).unwind(lower) == self.unwind(lower),
        decreases self.trail.len(),
    {
        if self.trail.len() <= upper || self.trail.len() == 0 {
        } else {
            let at = self.trail.last() as int;
            let popped = Store {
                cells: if at < self.cells.len() {
                    self.cells.update(at, cell(HeapTag::Variable, at))
                } else {
                    self.cells
                },
                trail: self.trail.drop_last(),
            };
            popped.lemma_unwind_in_stages(upper, lower);
        }
    }

    /// What can be taken back in two stages can be taken back at once.
    pub proof fn lemma_taken_back_chains(self, middle: Store, later: Store)
        requires
            self.taken_back_from(middle),
            middle.taken_back_from(later),
        ensures
            self.taken_back_from(later),
    {
        later.lemma_unwind_in_stages(middle.trail.len() as int, self.trail.len() as int);
    }

    /// Binding an unbound variable can be taken back.
    pub proof fn lemma_bind_can_be_taken_back(self, variable: int, target: int)
        requires
            is_unbound(self.cells, variable),
            self.cells.len() <= usize::MAX,
        ensures
            self.taken_back_from(self.bind(variable, target)),
    {
        self.lemma_bind_then_unwind_restores(variable, target);
    }
}

/// Whatever a unification has bound, the trail can take back: unwinding to
/// the length the trail had before gives back the heap as it was before,
/// cell for cell, whether the unification succeeded or not.
pub proof fn lemma_unify_can_be_taken_back(
    store: Store,
    a: int,
    b: int,
    depth: nat,
    trail_limit: nat,
)
    requires
        store.cells.len() <= usize::MAX,
    ensures
        store.taken_back_from(unify_terms(store, a, b, depth, trail_limit).0),
    decreases depth, 0nat, 0nat,
{
    let cells = store.cells;
    assert(store.unwind(store.trail.len() as int) == store);
    match (resolve(cells, a, cells.len()), resolve(cells, b, cells.len())) {
        (Some(x), Some(y)) => {
            lemma_resolve_ends(cells, a, cells.len());
            lemma_resolve_ends(cells, b, cells.len());
            if x == y {
            } else if cells[x].tag == HeapTag::Variable && cells[y].tag == HeapTag::Variable {
                if x > y {
                    store.lemma_bind_can_be_taken_back(x, y);
                } else {
                    store.lemma_bind_can_be_taken_back(y, x);
                }
            } else if cells[x].tag == HeapTag::Variable {
                store.lemma_bind_can_be_taken_back(x, y);
            } else if cells[y].tag == HeapTag::Variable {
                store.lemma_bind_can_be_taken_back(y, x);
            } else if cells[x].tag == HeapTag::Arity && cells[y].tag == HeapTag::Arity {
                if block_fits(cells, x) && block_fits(cells, y) && block_width(cells, x) > 1
                    && depth > 0 {
                    lemma_arguments_can_be_taken_back(
                        store,
                        x + 2,
                        y + 2,
                        (block_width(cells, x) - 1) as nat,
                        (depth - 1) as nat,
                        trail_limit,
                    );
                }
            }
        },
        _ => {},
    }
}

/// Whatever the unification of arguments has bound, the trail can take
/// back.
pub proof fn lemma_arguments_can_be_taken_back(
    store: Store,
    a: int,
    b: int,
    count: nat,
    depth: nat,
    trail_limit: nat,
)
    requires
        store.cells.len() <= usize::MAX,
    ensures
        store.taken_back_from(unify_arguments(store, a, b, count, depth, trail_limit).0),
    decreases depth, 1nat, count,
{
    assert(store.unwind(store.trail.len() as int) == store);
    if count > 0 {
        let before = unify_arguments(store, a, b, (count - 1) as nat, depth, trail_limit);
        lemma_arguments_can_be_taken_back(store, a, b, (count - 1) as nat, depth, trail_limit);
        if before.1 == Ok::<bool, EngineError>(true) {
            lemma_unify_can_be_taken_back(before.0, a + count - 1, b + count - 1, depth, trail_limit);
            store.lemma_taken_back_chains(
                before.0,
                unify_terms(before.0, a + count - 1, b + count - 1, depth, trail_limit).0,
            );
        }
    }
}

} // verus!
