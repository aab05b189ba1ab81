//! What a unification that succeeds has done: under the bindings it leaves,
//! the two terms are alike.

use vstd::prelude::*;
use crate::block::{block_fits, block_width};
use crate::error::EngineError;
use crate::heap::{HeapEntry, HeapTag};
use crate::laws::shape::{cell_formed, lemma_same_blocks_at, slots_follow};
use crate::laws::soundness::{
    lemma_arguments_keep_sound, lemma_bind_keeps_sound, lemma_resolve_stays_above,
    lemma_resolve_succeeds, lemma_unify_keeps_sound,
};
use crate::laws::unify_laws::lemma_resolve_ends;
use crate::search::is_ground;
use crate::store::{is_unbound, resolve, Store};
use crate::unify::{same_functor, unify_arguments, unify_terms};

verus! {

/// Whether the cells at `a` and `b` stand for the same variable, atom or
/// number, or for the same block: they resolve to the same cell, or to
/// ground cells that are equal.
pub open spec fn agree(cells: Seq<HeapEntry>, a: int, b: int) -> bool {
    match (resolve(cells, a, cells.len()), resolve(cells, b, cells.len())) {
        (Some(x), Some(y)) => x == y || (is_ground(cells[x]) && cells[x] == cells[y]),
        _ => false,
    }
}

/// Whether the terms at `a` and `b` are alike: they agree, or they are
/// blocks with the same argument count and number of cells whose functors
/// agree and whose arguments are alike, pair by pair, nested at most
/// `depth` deep.
pub open spec fn alike(cells: Seq<HeapEntry>, a: int, b: int, depth: nat) -> bool
    decreases depth, 0nat, 0nat,
{
    match (resolve(cells, a, cells.len()), resolve(cells, b, cells.len())) {
        (Some(x), Some(y)) => {
            ||| x == y
            ||| is_ground(cells[x]) && cells[x] == cells[y]
            ||| {
                &&& cells[x].tag == HeapTag::Arity
                &&& cells[y].tag == HeapTag::Arity
                &&& block_fits(cells, x)
                &&& block_fits(cells, y)
                &&& cells[x].data == cells[y].data
                &&& block_width(cells, x) == block_width(cells, y)
                &&& agree(cells, x + 1, y + 1)
                &&& block_width(cells, x) > 1 ==> depth > 0 && alike_arguments(
                    cells,
                    x + 2,
                    y + 2,
                    (block_width(cells, x) - 1) as nat,
                    (depth - 1) as nat,
                )
            }
        },
        _ => false,
    }
}

/// Whether the first `count` pairs of the arguments that start at `a` and
/// `b` are alike.
pub open spec fn alike_arguments(
    cells: Seq<HeapEntry>,
    a: int,
    b: int,
    count: nat,
    depth: nat,
) -> bool
    decreases depth, 1nat, count,
{
    count == 0 || (alike_arguments(cells, a, b, (count - 1) as nat, depth) && alike(
        cells,
        a + count - 1,
        b + count - 1,
        depth,
    ))
}

/// Where a walk ends does not depend on how many hops it may take, as long
/// as it may take enough.
pub proof fn lemma_resolve_is_settled(cells: Seq<HeapEntry>, at: int, hops: nat, more: nat)
    requires
        resolve(cells, at, hops) is Some,
        resolve(cells, at, more) is Some,
    ensures
        resolve(cells, at, hops) == resolve(cells, at, more),
    decreases hops,
{
    if cells[at].tag == HeapTag::Unify || cells[at].tag == HeapTag::Reference {
        lemma_resolve_is_settled(
            cells,
            cells[at].data as int,
            (hops - 1) as nat,
            (more - 1) as nat,
        );
    }
}

/// Where a walk ends once a variable is bound: where it ended before, or, if
/// it ended at the variable, at the term the variable is bound to.
pub proof fn lemma_walk_after_bind(
    store: Store,
    variable: int,
    target: int,
    at: int,
    hops: nat,
)
    requires
        store.cells.len() <= usize::MAX,
        is_unbound(store.cells, variable),
        0 <= target < store.cells.len(),
        target != variable,
        store.cells[target].tag != HeapTag::Unify,
        store.cells[target].tag != HeapTag::Reference,
        store.cells[target].tag == HeapTag::Variable ==> store.cells[target].data == target,
        resolve(store.cells, at, hops) is Some,
    ensures
        resolve(store.bind(variable, target).cells, at, hops + 1) == Some(
            if resolve(store.cells, at, hops)->0 == variable {
                target
            } else {
                resolve(store.cells, at, hops)->0
            },
        ),
    decreases hops,
{
    let cells = store.cells;
    let after = store.bind(variable, target).cells;
    assert(after[target] == cells[target]);
    if at == variable {
        assert(resolve(after, target, hops) == Some(target));
        assert(after[at].data == target);
        assert(after[at].tag == HeapTag::Unify || after[at].tag == HeapTag::Reference);
        assert(resolve(after, at, hops + 1) == resolve(after, target, hops));
    } else {
        assert(after[at] == cells[at]);
        if cells[at].tag == HeapTag::Unify || cells[at].tag == HeapTag::Reference {
            let next = cells[at].data as int;
            lemma_walk_after_bind(store, variable, target, next, (hops - 1) as nat);
            assert(resolve(after, at, hops + 1) == resolve(after, next, hops));
            assert(resolve(cells, at, hops) == resolve(cells, next, (hops - 1) as nat));
        }
    }
}

/// In a sound store, where a cell resolves to once a variable is bound:
/// where it resolved to before, or, if that was the variable, the term the
/// variable is bound to.
pub proof fn lemma_resolve_after_bind(
    store: Store,
    variable: int,
    target: int,
    at: int,
    floor: int,
)
    requires
        store.sound(floor),
        store.trail.len() < usize::MAX,
        is_unbound(store.cells, variable),
        floor <= variable,
        floor <= target < store.cells.len(),
        target != variable,
        store.cells[target].tag != HeapTag::Unify,
        store.cells[target].tag != HeapTag::Reference,
        store.cells[target].tag == HeapTag::Variable ==> target < variable,
        0 <= at < store.cells.len(),
    ensures
        resolve(store.cells, at, store.cells.len()) is Some,
        resolve(store.bind(variable, target).cells, at, store.cells.len()) == Some(
            if resolve(store.cells, at, store.cells.len())->0 == variable {
                target
            } else {
                resolve(store.cells, at, store.cells.len())->0
            },
        ),
{
    let cells = store.cells;
    let after = store.bind(variable, target).cells;
    lemma_resolve_succeeds(cells, at);
    lemma_bind_keeps_sound(store, variable, target, floor);
    lemma_resolve_succeeds(after, at);
    assert(cell_formed(cells, target));
    lemma_walk_after_bind(store, variable, target, at, cells.len());
    lemma_resolve_is_settled(after, at, cells.len(), cells.len() + 1);
}

/// In a sound store, functor cells that hold the same functor one step on
/// agree.
pub proof fn lemma_same_functor_agrees(store: Store, a: int, b: int, floor: int)
    requires
        store.sound(floor),
        0 <= a < store.cells.len(),
        0 <= b < store.cells.len(),
        store.cells[a].tag != HeapTag::Arity,
        store.cells[b].tag != HeapTag::Arity,
        same_functor(store.cells, a, b),
    ensures
        agree(store.cells, a, b),
{
    let cells = store.cells;
    let hops = cells.len();
    lemma_resolve_succeeds(cells, a);
    lemma_resolve_succeeds(cells, b);
    lemma_resolve_ends(cells, a, hops);
    lemma_resolve_ends(cells, b, hops);
    assert(cell_formed(cells, a));
    assert(cell_formed(cells, b));
    assert(cells[a].tag != HeapTag::Uninitialized);
    assert(cells[b].tag != HeapTag::Uninitialized);
    let first = if cells[a].is_var_or_unify() {
        cells[a].data as int
    } else {
        a
    };
    let second = if cells[b].is_var_or_unify() {
        cells[b].data as int
    } else {
        b
    };
    assert(cells[first] == cells[second]);
    assert(cell_formed(cells, first));
    assert(cell_formed(cells, second));
    assert(cells[first].tag != HeapTag::Uninitialized);
    lemma_resolve_succeeds(cells, first);
    lemma_resolve_succeeds(cells, second);
    // One step on, the walks are where they were.
    assert(resolve(cells, a, hops) == resolve(cells, first, hops)) by {
        if first != a {
            assert(resolve(cells, a, hops) == resolve(cells, first, (hops - 1) as nat));
            lemma_resolve_is_settled(cells, first, (hops - 1) as nat, hops);
        }
    }
    assert(resolve(cells, b, hops) == resolve(cells, second, hops)) by {
        if second != b {
            assert(resolve(cells, b, hops) == resolve(cells, second, (hops - 1) as nat));
            lemma_resolve_is_settled(cells, second, (hops - 1) as nat, hops);
        }
    }
    // And from equal cells they go the same way.
    if cells[first].tag == HeapTag::Unify || cells[first].tag == HeapTag::Reference {
        let next = cells[first].data as int;
        assert(resolve(cells, first, hops) == resolve(cells, next, (hops - 1) as nat));
        assert(resolve(cells, second, hops) == resolve(cells, next, (hops - 1) as nat));
    } else if cells[first].tag == HeapTag::Variable {
        assert(first == second);
    }
}

/// Whether the variable at `variable` may be bound to the term at `target`
/// as unification binds: the store is sound and the trail has room, the
/// variable is unbound, both lie at or above the floor, and the term is
/// resolved and, if it is an unbound variable too, lies lower down.
pub open spec fn bindable(store: Store, variable: int, target: int, floor: int) -> bool {
    &&& store.sound(floor)
    &&& store.trail.len() < usize::MAX
    &&& is_unbound(store.cells, variable)
    &&& floor <= variable
    &&& floor <= target < store.cells.len()
    &&& target != variable
    &&& store.cells[target].tag != HeapTag::Unify
    &&& store.cells[target].tag != HeapTag::Reference
    &&& store.cells[target].tag == HeapTag::Variable ==> target < variable
}

/// Whether every binding that unification may make keeps what `kept` says
/// of the heap.
pub open spec fn kept_by_binding(kept: spec_fn(Seq<HeapEntry>) -> bool, floor: int) -> bool {
    forall|store: Store, variable: int, target: int|
        bindable(store, variable, target, floor) && kept(store.cells) ==> #[trigger] kept(
            store.bind(variable, target).cells,
        )
}

/// What every binding keeps, unification keeps.
pub proof fn lemma_unify_keeps(
    store: Store,
    a: int,
    b: int,
    depth: nat,
    trail_limit: nat,
    floor: int,
    kept: spec_fn(Seq<HeapEntry>) -> bool,
)
    requires
        store.sound(floor),
        floor <= a < store.cells.len(),
        floor <= b < store.cells.len(),
        trail_limit <= usize::MAX,
        kept_by_binding(kept, floor),
        kept(store.cells),
    ensures
        kept(unify_terms(store, a, b, depth, trail_limit).0.cells),
    decreases depth, 0nat, 0nat,
{
    let cells = store.cells;
    lemma_resolve_succeeds(cells, a);
    lemma_resolve_succeeds(cells, b);
    lemma_resolve_ends(cells, a, cells.len());
    lemma_resolve_ends(cells, b, cells.len());
    lemma_resolve_stays_above(cells, a, cells.len(), floor);
    lemma_resolve_stays_above(cells, b, cells.len(), floor);
    let x = resolve(cells, a, cells.len())->0;
    let y = resolve(cells, b, cells.len())->0;
    assert(cell_formed(cells, x));
    assert(cell_formed(cells, y));
    if x == y {
    } else if store.trail.len() >= trail_limit && (cells[x].tag == HeapTag::Variable
        || cells[y].tag == HeapTag::Variable) {
    } else if cells[x].tag == HeapTag::Variable && cells[y].tag == HeapTag::Variable {
        if x > y {
            assert(bindable(store, x, y, floor));
        } else {
            assert(bindable(store, y, x, floor));
        }
    } else if cells[x].tag == HeapTag::Variable {
        assert(bindable(store, x, y, floor));
    } else if cells[y].tag == HeapTag::Variable {
        assert(bindable(store, y, x, floor));
    } else if cells[x].tag == HeapTag::Arity && cells[y].tag == HeapTag::Arity {
        if block_width(cells, x) > 1 && depth > 0 && block_width(cells, x) == block_width(
            cells,
            y,
        ) {
            lemma_arguments_keep(
                store,
                x + 2,
                y + 2,
                (block_width(cells, x) - 1) as nat,
                (depth - 1) as nat,
                trail_limit,
                floor,
                kept,
            );
        }
    }
}

/// What every binding keeps, the unification of arguments keeps.
pub proof fn lemma_arguments_keep(
    store: Store,
    a: int,
    b: int,
    count: nat,
    depth: nat,
    trail_limit: nat,
    floor: int,
    kept: spec_fn(Seq<HeapEntry>) -> bool,
)
    requires
        store.sound(floor),
        floor <= a,
        floor <= b,
        a + count <= store.cells.len(),
        b + count <= store.cells.len(),
        trail_limit <= usize::MAX,
        kept_by_binding(kept, floor),
        kept(store.cells),
    ensures
        kept(unify_arguments(store, a, b, count, depth, trail_limit).0.cells),
    decreases depth, 1nat, count,
{
    if count > 0 {
        let before = unify_arguments(store, a, b, (count - 1) as nat, depth, trail_limit);
        lemma_arguments_keep_sound(store, a, b, (count - 1) as nat, depth, trail_limit, floor);
        lemma_arguments_keep(store, a, b, (count - 1) as nat, depth, trail_limit, floor, kept);
        if before.1 == Ok::<bool, EngineError>(true) {
            lemma_unify_keeps(
                before.0,
                a + count - 1,
                b + count - 1,
                depth,
                trail_limit,
                floor,
                kept,
            );
        }
    }
}

/// Cells that agree still agree once a variable is bound.
pub proof fn lemma_bind_keeps_agree(
    store: Store,
    variable: int,
    target: int,
    floor: int,
    a: int,
    b: int,
)
    requires
        bindable(store, variable, target, floor),
        0 <= a < store.cells.len(),
        0 <= b < store.cells.len(),
        agree(store.cells, a, b),
    ensures
        agree(store.bind(variable, target).cells, a, b),
{
    let cells = store.cells;
    let after = store.bind(variable, target).cells;
    lemma_resolve_after_bind(store, variable, target, a, floor);
    lemma_resolve_after_bind(store, variable, target, b, floor);
    lemma_resolve_ends(cells, a, cells.len());
    lemma_resolve_ends(cells, b, cells.len());
    let x = resolve(cells, a, cells.len())->0;
    let y = resolve(cells, b, cells.len())->0;
    assert(after.len() == cells.len());
    if x != y {
        assert(is_ground(cells[x]) && cells[x] == cells[y]);
        assert(x != variable && y != variable);
        assert(after[x] == cells[x]);
        assert(after[y] == cells[y]);
        assert(resolve(after, a, after.len()) == Some(x));
        assert(resolve(after, b, after.len()) == Some(y));
    }
}

/// Terms that are alike are still alike once a variable is bound.
pub proof fn lemma_bind_keeps_alike(
    store: Store,
    variable: int,
    target: int,
    floor: int,
    a: int,
    b: int,
    depth: nat,
)
    requires
        bindable(store, variable, target, floor),
        0 <= a < store.cells.len(),
        0 <= b < store.cells.len(),
        alike(store.cells, a, b, depth),
    ensures
        alike(store.bind(variable, target).cells, a, b, depth),
    decreases depth, 0nat, 0nat,
{
    let cells = store.cells;
    let after = store.bind(variable, target).cells;
    lemma_resolve_after_bind(store, variable, target, a, floor);
    lemma_resolve_after_bind(store, variable, target, b, floor);
    lemma_bind_keeps_sound(store, variable, target, floor);
    let x = resolve(cells, a, cells.len())->0;
    let y = resolve(cells, b, cells.len())->0;
    lemma_resolve_ends(cells, a, cells.len());
    lemma_resolve_ends(cells, b, cells.len());
    if x == y || (is_ground(cells[x]) && cells[x] == cells[y]) {
    } else {
        lemma_same_blocks_at(cells, after, x);
        lemma_same_blocks_at(cells, after, y);
        lemma_bind_keeps_agree(store, variable, target, floor, x + 1, y + 1);
        if block_width(cells, x) > 1 {
            lemma_bind_keeps_alike_arguments(
                store,
                variable,
                target,
                floor,
                x + 2,
                y + 2,
                (block_width(cells, x) - 1) as nat,
                (depth - 1) as nat,
            );
        }
    }
}

/// Arguments that are alike are still alike once a variable is bound.
pub proof fn lemma_bind_keeps_alike_arguments(
    store: Store,
    variable: int,
    target: int,
    floor: int,
    a: int,
    b: int,
    count: nat,
    depth: nat,
)
    requires
        bindable(store, variable, target, floor),
        0 <= a,
        0 <= b,
        a + count <= store.cells.len(),
        b + count <= store.cells.len(),
        alike_arguments(store.cells, a, b, count, depth),
    ensures
        alike_arguments(store.bind(variable, target).cells, a, b, count, depth),
    decreases depth, 1nat, count,
{
    if count > 0 {
        lemma_bind_keeps_alike_arguments(
            store,
            variable,
            target,
            floor,
            a,
            b,
            (count - 1) as nat,
            depth,
        );
        lemma_bind_keeps_alike(store, variable, target, floor, a + count - 1, b + count - 1, depth);
    }
}

/// A unification that succeeds leaves the two terms alike: under the
/// bindings it has made, they are the same term.
pub proof fn lemma_unify_makes_alike(
    store: Store,
    a: int,
    b: int,
    depth: nat,
    trail_limit: nat,
    floor: int,
)
    requires
        store.sound(floor),
        floor <= a < store.cells.len(),
        floor <= b < store.cells.len(),
        trail_limit <= usize::MAX,
        unify_terms(store, a, b, depth, trail_limit).1 == Ok::<bool, EngineError>(true),
    ensures
        alike(unify_terms(store, a, b, depth, trail_limit).0.cells, a, b, depth),
    decreases depth, 0nat, 0nat,
{
    let cells = store.cells;
    let hops = cells.len();
    lemma_resolve_succeeds(cells, a);
    lemma_resolve_succeeds(cells, b);
    lemma_resolve_ends(cells, a, hops);
    lemma_resolve_ends(cells, b, hops);
    lemma_resolve_stays_above(cells, a, hops, floor);
    lemma_resolve_stays_above(cells, b, hops, floor);
    let x = resolve(cells, a, hops)->0;
    let y = resolve(cells, b, hops)->0;
    assert(cell_formed(cells, x));
    assert(cell_formed(cells, y));
    let after = unify_terms(store, a, b, depth, trail_limit).0;
    if x == y {
    } else if cells[x].tag == HeapTag::Variable && cells[y].tag == HeapTag::Variable {
        if x > y {
            lemma_resolve_after_bind(store, x, y, a, floor);
            lemma_resolve_after_bind(store, x, y, b, floor);
        } else {
            lemma_resolve_after_bind(store, y, x, a, floor);
            lemma_resolve_after_bind(store, y, x, b, floor);
        }
    } else if cells[x].tag == HeapTag::Variable {
        lemma_resolve_after_bind(store, x, y, a, floor);
        lemma_resolve_after_bind(store, x, y, b, floor);
    } else if cells[y].tag == HeapTag::Variable {
        lemma_resolve_after_bind(store, y, x, a, floor);
        lemma_resolve_after_bind(store, y, x, b, floor);
    } else if cells[x].tag == HeapTag::Arity && cells[y].tag == HeapTag::Arity {
        let width = block_width(cells, x);
        lemma_unify_keeps_sound(store, a, b, depth, trail_limit, floor);
        lemma_same_blocks_at(cells, after.cells, x);
        lemma_same_blocks_at(cells, after.cells, y);
        // The two sides still resolve to the blocks.
        assert(agree(cells, a, x));
        assert(agree(cells, b, y));
        lemma_kept_by_binding_agree(floor, a, x, cells.len() as int);
        lemma_kept_by_binding_agree(floor, b, y, cells.len() as int);
        lemma_unify_keeps(
            store,
            a,
            b,
            depth,
            trail_limit,
            floor,
            |c: Seq<HeapEntry>| c.len() == cells.len() && agree(c, a, x),
        );
        lemma_unify_keeps(
            store,
            a,
            b,
            depth,
            trail_limit,
            floor,
            |c: Seq<HeapEntry>| c.len() == cells.len() && agree(c, b, y),
        );
        assert(resolve(after.cells, x, after.cells.len()) == Some(x));
        assert(resolve(after.cells, y, after.cells.len()) == Some(y));
        assert(resolve(after.cells, a, after.cells.len()) == Some(x));
        assert(resolve(after.cells, b, after.cells.len()) == Some(y));
        // Their functors still agree.
        assert(slots_follow(cells, x));
        assert(slots_follow(cells, y));
        assert(cells[x + 1].tag != HeapTag::Arity);
        assert(cells[y + 1].tag != HeapTag::Arity);
        lemma_same_functor_agrees(store, x + 1, y + 1, floor);
        lemma_kept_by_binding_agree(floor, x + 1, y + 1, cells.len() as int);
        lemma_unify_keeps(
            store,
            a,
            b,
            depth,
            trail_limit,
            floor,
            |c: Seq<HeapEntry>| c.len() == cells.len() && agree(c, x + 1, y + 1),
        );
        // And their arguments are alike.
        if width > 1 {
            lemma_arguments_make_alike(
                store,
                x + 2,
                y + 2,
                (width - 1) as nat,
                (depth - 1) as nat,
                trail_limit,
                floor,
            );
        }
    }
}

/// Every binding keeps that two cells agree.
pub proof fn lemma_kept_by_binding_agree(floor: int, a: int, b: int, length: int)
    requires
        0 <= a < length,
        0 <= b < length,
    ensures
        kept_by_binding(|c: Seq<HeapEntry>| c.len() == length && agree(c, a, b), floor),
{
    let kept = |c: Seq<HeapEntry>| c.len() == length && agree(c, a, b);
    assert forall|store: Store, variable: int, target: int|
        bindable(store, variable, target, floor) && kept(store.cells) implies #[trigger] kept(
        store.bind(variable, target).cells,
    ) by {
        lemma_bind_keeps_agree(store, variable, target, floor, a, b);
    }
}

/// Every binding keeps that arguments are alike.
pub proof fn lemma_kept_by_binding_alike_arguments(
    floor: int,
    a: int,
    b: int,
    count: nat,
    depth: nat,
    length: int,
)
    requires
        0 <= a,
        0 <= b,
        a + count <= length,
        b + count <= length,
    ensures
        kept_by_binding(
            |c: Seq<HeapEntry>| c.len() == length && alike_arguments(c, a, b, count, depth),
            floor,
        ),
{
    let kept = |c: Seq<HeapEntry>| c.len() == length && alike_arguments(c, a, b, count, depth);
    assert forall|store: Store, variable: int, target: int|
        bindable(store, variable, target, floor) && kept(store.cells) implies #[trigger] kept(
        store.bind(variable, target).cells,
    ) by {
        lemma_bind_keeps_alike_arguments(store, variable, target, floor, a, b, count, depth);
    }
}

/// A unification of arguments that succeeds leaves the arguments alike,
/// pair by pair.
pub proof fn lemma_arguments_make_alike(
    store: Store,
    a: int,
    b: int,
    count: nat,
    depth: nat,
    trail_limit: nat,
    floor: int,
)
    requires
        store.sound(floor),
        floor <= a,
        floor <= b,
        a + count <= store.cells.len(),
        b + count <= store.cells.len(),
        trail_limit <= usize::MAX,
        unify_arguments(store, a, b, count, depth, trail_limit).1 == Ok::<bool, EngineError>(
            true,
        ),
    ensures
        alike_arguments(
            unify_arguments(store, a, b, count, depth, trail_limit).0.cells,
            a,
            b,
            count,
            depth,
        ),
    decreases depth, 1nat, count,
{
    if count > 0 {
        let before = unify_arguments(store, a, b, (count - 1) as nat, depth, trail_limit);
        lemma_arguments_keep_sound(store, a, b, (count - 1) as nat, depth, trail_limit, floor);
        lemma_arguments_make_alike(store, a, b, (count - 1) as nat, depth, trail_limit, floor);
        lemma_unify_makes_alike(before.0, a + count - 1, b + count - 1, depth, trail_limit, floor);
        lemma_kept_by_binding_alike_arguments(
            floor,
            a,
            b,
            (count - 1) as nat,
            depth,
            store.cells.len() as int,
        );
        lemma_unify_keeps(
            before.0,
            a + count - 1,
            b + count - 1,
            depth,
            trail_limit,
            floor,
            |c: Seq<HeapEntry>|
                c.len() == store.cells.len() && alike_arguments(
                    c,
                    a,
                    b,
                    (count - 1) as nat,
                    depth,
                ),
        );
    }
}

} // verus!
