//! Bindings: the heap together with the trail that records which cells were
//! bound, so that the bindings can be taken back.

use vstd::prelude::*;
use crate::heap::{Heap, HeapEntry, HeapIndex, HeapTag};
use crate::layout::cell;

verus! {

/// The cells of the heap and the trail, as one value.
#[verifier::ext_equal]
pub struct Store {
    pub cells: Seq<HeapEntry>,
    pub trail: Seq<HeapIndex>,
}

/// Whether the cell at `at` holds an unbound variable: a `Variable` that
/// names its own position.
pub open spec fn is_unbound(cells: Seq<HeapEntry>, at: int) -> bool {
    0 <= at < cells.len() && cells[at] == cell(HeapTag::Variable, at)
}

/// The position that the term at `at` resolves to: bindings and references
/// are followed, at most `hops` of them, to an unbound variable or to a cell
/// that is no variable. There is none if the walk leaves the heap, meets a
/// `Variable` that names another cell, or takes more hops than allowed.
pub open spec fn resolve(cells: Seq<HeapEntry>, at: int, hops: nat) -> Option<int>
    decreases hops,
{
    if at < 0 || at >= cells.len() {
        None
    } else {
        match cells[at].tag {
            HeapTag::Variable => if cells[at].data == at {
                Some(at)
            } else {
                None
            },
            HeapTag::Unify | HeapTag::Reference => if hops == 0 {
                None
            } else {
                resolve(cells, cells[at].data as int, (hops - 1) as nat)
            },
            _ => Some(at),
        }
    }
}

/// What a variable's cell holds once the variable is bound to the term at
/// `target`: a `Reference` to a block, a `Unify` to anything else.
pub open spec fn binding_to(cells: Seq<HeapEntry>, target: int) -> HeapEntry {
    if cells[target].tag == HeapTag::Arity {
        cell(HeapTag::Reference, target)
    } else {
        cell(HeapTag::Unify, target)
    }
}

impl Store {
    /// The store after the variable at `variable` has been bound to the term
    /// at `target`: its cell points there, and its position is on the trail.
    pub open spec fn bind(self, variable: int, target: int) -> Store {
        Store {
            cells: self.cells.update(variable, binding_to(self.cells, target)),
            trail: self.trail.push(variable as usize),
        }
    }

    /// The store after every binding recorded on the trail at or above
    /// `mark` has been taken back, last first: each such cell holds an
    /// unbound variable again, and the trail ends at `mark`.
    pub open spec fn unwind(self, mark: int) -> Store
        decreases self.trail.len(),
    {
        if self.trail.len() <= mark || self.trail.len() == 0 {
            self
        } else {
            let at = self.trail.last() as int;
            (Store {
                cells: if at < self.cells.len() {
                    self.cells.update(at, cell(HeapTag::Variable, at))
                } else {
                    self.cells
                },
                trail: self.trail.drop_last(),
            }).unwind(mark)
        }
    }

    /// The store after the heap has been cut back to `mark` cells.
    pub open spec fn truncate(self, mark: int) -> Store {
        Store {
            cells: if 0 <= mark <= self.cells.len() {
                self.cells.take(mark)
            } else {
                self.cells
            },
            trail: self.trail,
        }
    }

    /// The store as it was at the marks: bindings made since are taken
    /// back and cells reserved since are dropped.
    pub open spec fn restore(self, base: int, trail_top: int) -> Store {
        self.unwind(trail_top).truncate(base)
    }

    /// Unwinding cuts the trail back to the mark, turns every cell recorded
    /// above the mark into an unbound variable, and changes no other cell.
    pub proof fn lemma_unwind_shape(self, mark: int)
        requires
            0 <= mark,
        ensures
            self.unwind(mark).trail == if mark <= self.trail.len() {
                self.trail.take(mark)
            } else {
                self.trail
            },
            self.unwind(mark).cells.len() == self.cells.len(),
            forall|i: int|
                0 <= i < self.cells.len() && (forall|j: int|
                    mark <= j < self.trail.len() ==> self.trail[j] != i) ==> self.unwind(
                    mark,
                ).cells[i] == self.cells[i],
            forall|j: int|
                mark <= j < self.trail.len() && self.trail[j] < self.cells.len() ==> self.unwind(
                    mark,
                ).cells[self.trail[j] as int] == cell(HeapTag::Variable, self.trail[j] as int),
        decreases self.trail.len(),
    {
        if self.trail.len() <= mark || self.trail.len() == 0 {
            assert(self.trail.take(self.trail.len() as int) =~= self.trail);
        } else {
            let at = self.trail.last() as int;
            let popped = Store {
                cells: if at < self.cells.len() {
                    self.cells.update(at, cell(HeapTag::Variable, at))
                } else {
                    self.cells
                },
                trail: self.trail.drop_last(),
            };
            popped.lemma_unwind_shape(mark);
            assert(popped.trail.take(mark) =~= self.trail.take(mark));
            assert forall|i: int|
                0 <= i < self.cells.len() && (forall|j: int|
                    mark <= j < self.trail.len() ==> self.trail[j] != i) implies self.unwind(
                mark,
            ).cells[i] == self.cells[i] by {
                assert(self.trail[self.trail.len() - 1] != i);
                assert forall|j: int| mark <= j < popped.trail.len() implies popped.trail[j]
                    != i by {
                    assert(self.trail[j] != i);
                }
                assert(popped.unwind(mark).cells[i] == popped.cells[i]);
                assert(self.unwind(mark) == popped.unwind(mark));
            }
            assert forall|j: int|
                mark <= j < self.trail.len() && self.trail[j] < self.cells.len() implies self.unwind(
                mark,
            ).cells[self.trail[j] as int] == cell(HeapTag::Variable, self.trail[j] as int) by {
                if j < self.trail.len() - 1 {
                    assert(popped.trail[j] == self.trail[j]);
                } else {
                    if exists|k: int| mark <= k < popped.trail.len() && popped.trail[k] == at {
                        let k = choose|k: int|
                            mark <= k < popped.trail.len() && popped.trail[k] == at;
                        assert(popped.unwind(mark).cells[popped.trail[k] as int] == cell(
                            HeapTag::Variable,
                            popped.trail[k] as int,
                        ));
                    } else {
                        assert(popped.unwind(mark).cells[at] == popped.cells[at]);
                    }
                }
            }
        }
    }

    /// Taking bindings back twice is the same as taking them back once.
    pub proof fn lemma_unwind_is_idempotent(self, mark: int)
        requires
            0 <= mark,
        ensures
            self.unwind(mark).unwind(mark) == self.unwind(mark),
    {
        self.lemma_unwind_shape(mark);
    }

    /// A binding that is taken back leaves the store exactly as it was
    /// before: the cell holds its unbound variable again and the trail has
    /// its old length.
    pub proof fn lemma_bind_then_unwind_restores(self, variable: int, target: int)
        requires
            is_unbound(self.cells, variable),
            variable <= usize::MAX,
        ensures
            self.bind(variable, target).unwind(self.trail.len() as int) == self,
            self.bind(variable, target).unwind(self.trail.len() as int).cells[variable] == cell(
                HeapTag::Variable,
                variable,
            ),
    {
        let bound = self.bind(variable, target);
        assert(bound.trail.drop_last() =~= self.trail);
        assert(bound.cells.update(variable, cell(HeapTag::Variable, variable)) =~= self.cells);
        let popped = Store {
            cells: bound.cells.update(variable, cell(HeapTag::Variable, variable)),
            trail: bound.trail.drop_last(),
        };
        assert(popped =~= self);
        assert(bound.unwind(self.trail.len() as int) == popped.unwind(self.trail.len() as int));
    }
}

/// The position that the term at `start` resolves to, if the walk stays
/// within the heap and ends within as many hops as the heap has cells.
pub fn resolve_at(heap: &Heap, start: HeapIndex) -> (found: Option<HeapIndex>)
    ensures
        found is Some <==> resolve(heap@, start as int, heap@.len()) is Some,
        found is Some ==> found->0 == resolve(heap@, start as int, heap@.len())->0,
        found is Some ==> found->0 < heap@.len(),
{
    let limit = heap.len();
    let mut at = start;
    let mut hops: usize = 0;
    loop
        invariant
            limit == heap@.len(),
            hops <= limit,
            resolve(heap@, at as int, (limit - hops) as nat) == resolve(
                heap@,
                start as int,
                limit as nat,
            ),
        decreases limit - hops,
    {
        if at >= limit {
            return None;
        }
        let entry = heap.read(at);
        match entry.tag {
            HeapTag::Variable => {
                if entry.data == at {
                    return Some(at);
                } else {
                    return None;
                }
            },
            HeapTag::Unify | HeapTag::Reference => {
                if hops == limit {
                    return None;
                }
                at = entry.data;
                hops += 1;
            },
            _ => {
                return Some(at);
            },
        }
    }
}

/// Binds the variable at `variable` to the term at `target` and records the
/// binding on the trail.
pub fn bind(heap: &mut Heap, trail: &mut Vec<HeapIndex>, variable: HeapIndex, target: HeapIndex)
    requires
        variable < old(heap)@.len(),
        target < old(heap)@.len(),
    ensures
        (Store { cells: final(heap)@, trail: final(trail)@ }) == (Store {
            cells: old(heap)@,
            trail: old(trail)@,
        }).bind(variable as int, target as int),
{
    let entry = if heap.read(target).tag == HeapTag::Arity {
        HeapEntry::new(HeapTag::Reference, target)
    } else {
        HeapEntry::new(HeapTag::Unify, target)
    };
    heap.write(variable, entry);
    trail.push(variable);
}

/// Takes back every binding recorded on the trail at or above `mark`, last
/// first.
pub fn unwind_trail(heap: &mut Heap, trail: &mut Vec<HeapIndex>, mark: usize)
    ensures
        (Store { cells: final(heap)@, trail: final(trail)@ }) == (Store {
            cells: old(heap)@,
            trail: old(trail)@,
        }).unwind(mark as int),
{
    while trail.len() > mark
        invariant
            (Store { cells: heap@, trail: trail@ }).unwind(mark as int) == (Store {
                cells: old(heap)@,
                trail: old(trail)@,
            }).unwind(mark as int),
        decreases trail@.len(),
    {
        let at = trail.pop().unwrap();
        if at < heap.len() {
            heap.write(at, HeapEntry::new(HeapTag::Variable, at));
        }
    }
}

} // verus!
