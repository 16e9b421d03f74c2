//! Walks along a map of handles into themselves.
//!
//! Rotating around a vertex and stepping around a face both repeat one map on
//! half-edge handles until the start comes back.  Where the map sends the
//! handles below a bound to handles below that bound, and no two to the same
//! one, the start does come back, within as many steps as there are handles.

use vstd::prelude::*;

verus! {

/// `step` sends the handles below `n` to handles below `n`, and no two of them to the same one.
pub open spec fn injective_below(step: spec_fn(usize) -> usize, n: nat) -> bool {
    &&& forall|a: usize| a < n ==> #[trigger] step(a) < n
    &&& forall|a: usize, b: usize|
        a < n && b < n && #[trigger] step(a) == #[trigger] step(b) ==> a == b
}

/// The handles met from `cur` on by repeating `step`, up to and with the one
/// whose successor is `start`.  At most `fuel` handles are taken.
pub open spec fn walk(step: spec_fn(usize) -> usize, start: usize, cur: usize, fuel: nat) -> Seq<
    usize,
>
    decreases fuel,
{
    if fuel == 0 {
        Seq::empty()
    } else if step(cur) == start {
        seq![cur]
    } else {
        seq![cur] + walk(step, start, step(cur), (fuel - 1) as nat)
    }
}

/// The cycle of `step` through `start`, read from `start` on, among `n` handles.
pub open spec fn cycle(step: spec_fn(usize) -> usize, start: usize, n: nat) -> Seq<usize> {
    walk(step, start, start, n)
}

/// `path` starts at `start`, follows `step`, stays below `n` and meets no handle twice.
pub open spec fn is_trail(step: spec_fn(usize) -> usize, n: nat, start: usize, path: Seq<usize>) -> bool {
    &&& path.len() >= 1
    &&& path[0] == start
    &&& path.no_duplicates()
    &&& forall|i: int| 0 <= i < path.len() ==> #[trigger] path[i] < n
    &&& forall|i: int| 0 <= i < path.len() - 1 ==> #[trigger] path[i + 1] == step(path[i])
}

/// A walk that starts below `n` stays below `n`, and is no longer than its fuel.
pub proof fn lemma_walk_below(step: spec_fn(usize) -> usize, n: nat, start: usize, cur: usize, fuel: nat)
    requires
        forall|a: usize| a < n ==> #[trigger] step(a) < n,
        cur < n,
    ensures
        walk(step, start, cur, fuel).len() <= fuel,
        fuel > 0 ==> walk(step, start, cur, fuel).len() >= 1 && walk(step, start, cur, fuel)[0] == cur,
        forall|i: int|
            0 <= i < walk(step, start, cur, fuel).len() ==> #[trigger] walk(step, start, cur, fuel)[i]
                < n,
    decreases fuel,
{
    if fuel > 0 && step(cur) != start {
        lemma_walk_below(step, n, start, step(cur), (fuel - 1) as nat);
    }
}

/// Two maps that agree below `n` give the same walk from a handle below `n`.
pub proof fn lemma_walk_agrees(
    one: spec_fn(usize) -> usize,
    other: spec_fn(usize) -> usize,
    n: nat,
    start: usize,
    cur: usize,
    fuel: nat,
)
    requires
        forall|a: usize| a < n ==> #[trigger] one(a) == other(a),
        forall|a: usize| a < n ==> #[trigger] one(a) < n,
        cur < n,
    ensures
        walk(one, start, cur, fuel) == walk(other, start, cur, fuel),
    decreases fuel,
{
    if fuel > 0 && one(cur) != start {
        lemma_walk_agrees(one, other, n, start, one(cur), (fuel - 1) as nat);
    }
}

/// A sequence of distinct handles below `n` has at most `n` entries.
pub proof fn lemma_distinct_below(path: Seq<usize>, n: nat)
    requires
        path.no_duplicates(),
        forall|i: int| 0 <= i < path.len() ==> #[trigger] path[i] < n,
    ensures
        path.len() <= n,
{
    let ints = path.map_values(|x: usize| x as int);
    assert(ints.no_duplicates()) by {
        assert forall|i: int, j: int| 0 <= i < ints.len() && 0 <= j < ints.len() && i != j implies ints[i]
            != ints[j] by {
            assert(path[i] != path[j]);
        }
    }
    ints.unique_seq_to_set();
    vstd::set_lib::lemma_int_range(0, n as int);
    let below = vstd::set_lib::set_int_range(0, n as int);
    assert(ints.to_set().subset_of(below)) by {
        assert forall|x: int| ints.to_set().contains(x) implies below.contains(x) by {
            let i = choose|i: int| 0 <= i < ints.len() && ints[i] == x;
            assert(path[i] < n);
        }
    }
    vstd::set_lib::lemma_len_subset(ints.to_set(), below);
}

/// A trail whose last handle does not step back to the start can be extended by one step.
pub proof fn lemma_trail_extend(step: spec_fn(usize) -> usize, n: nat, start: usize, path: Seq<usize>)
    requires
        injective_below(step, n),
        is_trail(step, n, start, path),
        step(path.last()) != start,
    ensures
        is_trail(step, n, start, path.push(step(path.last()))),
        path.len() < n,
{
    let nx = step(path.last());
    let longer = path.push(nx);
    assert(path.last() < n);
    assert forall|j: int| 0 <= j < path.len() implies path[j] != nx by {
        if path[j] == nx {
            assert(j >= 1);
            assert(path[j - 1 + 1] == step(path[j - 1]));
            assert(path[j - 1] < n);
            assert(path[j - 1] == path.last());
        }
    }
    assert(longer.no_duplicates()) by {
        assert forall|i: int, j: int|
            0 <= i < longer.len() && 0 <= j < longer.len() && i != j implies longer[i] != longer[j] by {
            if i < path.len() && j < path.len() {
                assert(path[i] != path[j]);
            }
        }
    }
    assert forall|i: int| 0 <= i < longer.len() - 1 implies #[trigger] longer[i + 1] == step(longer[i]) by {
        if i < path.len() - 1 {
            assert(path[i + 1] == step(path[i]));
        }
    }
    lemma_distinct_below(longer, n);
}

/// Where `step` sends no two handles to the same one, the walk from the end
/// of a trail comes back to the start before its fuel runs out, and meets
/// no handle of the trail again.
pub proof fn lemma_walk_closes(step: spec_fn(usize) -> usize, n: nat, start: usize, path: Seq<usize>)
    requires
        injective_below(step, n),
        is_trail(step, n, start, path),
    ensures
        path.len() <= n,
        walk(step, start, path.last(), (n - path.len() + 1) as nat).len() >= 1,
        step(walk(step, start, path.last(), (n - path.len() + 1) as nat).last()) == start,
        (path.drop_last() + walk(step, start, path.last(), (n - path.len() + 1) as nat)).no_duplicates(),
    decreases n - path.len(),
{
    lemma_distinct_below(path, n);
    let fuel = (n - path.len() + 1) as nat;
    let cur = path.last();
    if step(cur) == start {
        assert(path.drop_last() + walk(step, start, cur, fuel) =~= path);
    } else {
        lemma_trail_extend(step, n, start, path);
        let longer = path.push(step(cur));
        lemma_walk_closes(step, n, start, longer);
        assert(longer.drop_last() =~= path);
        assert(path.drop_last() + walk(step, start, cur, fuel) =~= longer.drop_last() + walk(
            step,
            start,
            step(cur),
            (fuel - 1) as nat,
        ));
    }
}

/// Where `step` sends no two handles to the same one, the cycle through
/// `start` ends at the handle that steps back to `start`, and holds no
/// handle twice.
pub proof fn lemma_cycle_closes(step: spec_fn(usize) -> usize, n: nat, start: usize)
    requires
        injective_below(step, n),
        start < n,
    ensures
        1 <= cycle(step, start, n).len() <= n,
        cycle(step, start, n)[0] == start,
        step(cycle(step, start, n).last()) == start,
        cycle(step, start, n).no_duplicates(),
{
    let path = seq![start];
    assert(is_trail(step, n, start, path));
    lemma_walk_closes(step, n, start, path);
    assert(path.drop_last() + cycle(step, start, n) =~= cycle(step, start, n));
    lemma_walk_below(step, n, start, start, n);
}

} // verus!
