//! Mesh simplification by collapsing edges, cheapest first.

use vstd::prelude::*;
use crate::mesh::half_edge::{EdgeId, HalfEdge, Mesh, Vertex};
use crate::mesh::orbit::lemma_walk_agrees;
use vstd::multiset::Multiset;
use crate::queue::{Entry, MinQueue};

verus! {

/// Mesh simplification algorithms.
pub struct Simplification;

/// The handle of vertex `v` once vertex `gone` is merged into vertex `kept`
/// and taken out of the vertex array: `gone` becomes `kept`, and every
/// handle above `gone` moves down by one.
pub open spec fn renamed(v: usize, kept: usize, gone: usize) -> usize {
    let w = if v == gone {
        kept
    } else {
        v
    };
    if w > gone {
        (w - 1) as usize
    } else {
        w
    }
}

/// The half-edge `he` with its origin renamed.
pub open spec fn rerooted(he: HalfEdge, kept: usize, gone: usize) -> HalfEdge {
    HalfEdge { from: renamed(he.from, kept, gone), twin: he.twin, next: he.next, edge: he.edge, face: he.face }
}

/// The two ends of edge `e`: the origin of its half-edge, and the origin of
/// that half-edge's twin.
pub open spec fn ends<VA, EA, FA>(mesh: &Mesh<VA, EA, FA>, e: usize) -> (usize, usize) {
    let he = mesh.edges@[e as int].he;
    (mesh.origin(he), mesh.dest(he))
}

/// Both ends of edge `e` are the same vertex.
pub open spec fn degenerate<VA, EA, FA>(mesh: &Mesh<VA, EA, FA>, e: usize) -> bool {
    ends(mesh, e).0 == ends(mesh, e).1
}

/// `after` is `before` with edge `e` collapsed: the first end of `e` gets the
/// payload `merged`, every half-edge that left the second end leaves the
/// first, the second end is taken out of the vertex array, and the handles
/// of the vertices above it move down by one.  Edges, faces and the links
/// between half-edges stay.
pub open spec fn is_collapse<VA, EA, FA>(
    before: &Mesh<VA, EA, FA>,
    after: &Mesh<VA, EA, FA>,
    e: usize,
    merged: VA,
) -> bool {
    let (kept, gone) = ends(before, e);
    &&& e < before.edges@.len()
    &&& kept != gone
    &&& after.vertices@.len() == before.vertices@.len() - 1
    &&& forall|v: usize|
        v < before.vertices@.len() && v != gone ==> {
            let w = #[trigger] renamed(v, kept, gone);
            &&& after.vertices@[w as int].he_out == before.vertices@[v as int].he_out
            &&& after.vertices@[w as int].attr == if v == kept {
                merged
            } else {
                before.vertices@[v as int].attr
            }
        }
    &&& after.halfedges@.len() == before.halfedges@.len()
    &&& forall|h: int|
        0 <= h < before.halfedges@.len() ==> #[trigger] after.halfedges@[h] == rerooted(
            before.halfedges@[h],
            kept,
            gone,
        )
    &&& after.edges@ == before.edges@
    &&& after.faces@ == before.faces@
}

/// The two meshes hold the same vertices, half-edges, edges and faces.
pub open spec fn same_mesh<VA, EA, FA>(a: &Mesh<VA, EA, FA>, b: &Mesh<VA, EA, FA>) -> bool {
    &&& a.vertices@ == b.vertices@
    &&& a.halfedges@ == b.halfedges@
    &&& a.edges@ == b.edges@
    &&& a.faces@ == b.faces@
}

/// `after` comes from `before` by `steps` collapses, one after another, each
/// of an edge with two different ends, and each giving the kept end a
/// payload that `merge` may return for the payloads of the two ends.
pub open spec fn reduces_to<VA, EA, FA, M: Fn(&VA, &VA) -> VA>(
    before: &Mesh<VA, EA, FA>,
    after: &Mesh<VA, EA, FA>,
    merge: M,
    steps: nat,
) -> bool
    decreases steps,
{
    if steps == 0 {
        same_mesh(before, after)
    } else {
        exists|mid: Mesh<VA, EA, FA>, e: usize, merged: VA|
            {
                &&& reduces_to(before, &mid, merge, (steps - 1) as nat)
                &&& #[trigger] is_collapse(&mid, after, e, merged)
                &&& call_ensures(
                    merge,
                    (
                        &mid.vertices@[ends(&mid, e).0 as int].attr,
                        &mid.vertices@[ends(&mid, e).1 as int].attr,
                    ),
                    merged,
                )
            }
    }
}

/// Some entry of the queue is for edge `e`.
pub open spec fn waits(queue: vstd::multiset::Multiset<Entry>, e: usize) -> bool {
    exists|k: u64| #[trigger] queue.count((k, e)) > 0
}

/// The number of edges that are still marked live.
pub open spec fn count_live(live: Seq<bool>) -> nat
    decreases live.len(),
{
    if live.len() == 0 {
        0
    } else {
        count_live(live.drop_last()) + if live.last() {
            1nat
        } else {
            0nat
        }
    }
}

/// Marking a live edge dead lowers the count by one.
pub proof fn lemma_count_live_drop(live: Seq<bool>, e: int)
    requires
        0 <= e < live.len(),
        live[e],
    ensures
        count_live(live.update(e, false)) + 1 == count_live(live),
    decreases live.len(),
{
    let changed = live.update(e, false);
    if e == live.len() - 1 {
        assert(changed.drop_last() =~= live.drop_last());
    } else {
        lemma_count_live_drop(live.drop_last(), e);
        assert(changed.drop_last() =~= live.drop_last().update(e, false));
    }
}

/// Edge `g` is queued afresh: every edge where no vertex was kept yet, and
/// after a collapse every live edge with two different ends, one of them
/// the kept vertex.
pub open spec fn touched<VA, EA, FA>(
    mesh: &Mesh<VA, EA, FA>,
    live: Seq<bool>,
    kept: Option<usize>,
    g: usize,
) -> bool {
    match kept {
        None => true,
        Some(v) => live[g as int] && !degenerate(mesh, g) && (ends(mesh, g).0 == v || ends(mesh, g).1 == v),
    }
}

/// `after` is the queue `mid` once edge `g` is seen to: with one more entry
/// for `g`, under a key that `cost` may give for the payloads of its two
/// ends, if `g` is touched, and as it was if not.
pub open spec fn queued_next<VA, EA, FA, C: Fn(&VA, &VA) -> u64>(
    mesh: &Mesh<VA, EA, FA>,
    cost: C,
    live: Seq<bool>,
    kept: Option<usize>,
    g: usize,
    mid: Multiset<Entry>,
    after: Multiset<Entry>,
) -> bool {
    if touched(mesh, live, kept, g) {
        exists|key: u64|
            {
                &&& #[trigger] call_ensures(
                    cost,
                    (&mesh.vertices@[ends(mesh, g).0 as int].attr, &mesh.vertices@[ends(mesh, g).1 as int].attr),
                    key,
                )
                &&& after == mid.insert((key, g))
            }
    } else {
        after == mid
    }
}

/// `after` is the queue `before` once the edges below `upto` are seen to,
/// one after another.
pub open spec fn requeued<VA, EA, FA, C: Fn(&VA, &VA) -> u64>(
    mesh: &Mesh<VA, EA, FA>,
    cost: C,
    live: Seq<bool>,
    kept: Option<usize>,
    upto: nat,
    before: Multiset<Entry>,
    after: Multiset<Entry>,
) -> bool
    decreases upto,
{
    if upto == 0 {
        after == before
    } else {
        exists|mid: Multiset<Entry>|
            {
                &&& requeued(mesh, cost, live, kept, (upto - 1) as nat, before, mid)
                &&& #[trigger] queued_next(mesh, cost, live, kept, (upto - 1) as usize, mid, after)
            }
    }
}

/// A queue that was filled up to an edge is filled up to the next edge once
/// that edge is seen to.
pub proof fn lemma_requeue_next<VA, EA, FA, C: Fn(&VA, &VA) -> u64>(
    mesh: &Mesh<VA, EA, FA>,
    cost: C,
    live: Seq<bool>,
    kept: Option<usize>,
    g: usize,
    before: Multiset<Entry>,
    mid: Multiset<Entry>,
    after: Multiset<Entry>,
)
    requires
        g < usize::MAX,
        requeued(mesh, cost, live, kept, g as nat, before, mid),
        queued_next(mesh, cost, live, kept, g, mid, after),
    ensures
        requeued(mesh, cost, live, kept, (g + 1) as nat, before, after),
{
    let upto = (g + 1) as nat;
    assert((upto - 1) as usize == g);
    assert(requeued(mesh, cost, live, kept, (upto - 1) as nat, before, mid));
    assert(queued_next(mesh, cost, live, kept, (upto - 1) as usize, mid, after));
}

/// The vertex that is kept when edge `e` is collapsed, under the handle it
/// has afterwards.
pub open spec fn survivor<VA, EA, FA>(mesh: &Mesh<VA, EA, FA>, e: usize) -> usize {
    renamed(ends(mesh, e).0, ends(mesh, e).0, ends(mesh, e).1)
}

/// One pass of the simplification, in which the entry `popped` leaves the
/// queue.  No entry of the queue has a smaller key.  If its edge is no
/// longer live, nothing else changes.  If the two ends of its edge are one
/// vertex, the edge is marked dead.  Else the edge is collapsed and marked
/// dead, and the live edges at the kept vertex are queued afresh.
pub open spec fn passes_with<VA, EA, FA, C: Fn(&VA, &VA) -> u64, M: Fn(&VA, &VA) -> VA>(
    before: &Mesh<VA, EA, FA>,
    live_before: Seq<bool>,
    queue_before: Multiset<Entry>,
    after: &Mesh<VA, EA, FA>,
    live_after: Seq<bool>,
    queue_after: Multiset<Entry>,
    cost: C,
    merge: M,
    popped: Entry,
) -> bool {
    let e = popped.1;
    let rest = queue_before.remove(popped);
    &&& queue_before.count(popped) > 0
    &&& forall|other: Entry| queue_before.count(other) > 0 ==> popped.0 <= other.0
    &&& e < before.edges@.len()
    &&& if !live_before[e as int] {
        &&& same_mesh(before, after)
        &&& live_after == live_before
        &&& queue_after == rest
    } else if degenerate(before, e) {
        &&& same_mesh(before, after)
        &&& live_after == live_before.update(e as int, false)
        &&& queue_after == rest
    } else {
        &&& live_after == live_before.update(e as int, false)
        &&& exists|merged: VA|
            {
                &&& #[trigger] is_collapse(before, after, e, merged)
                &&& call_ensures(
                    merge,
                    (
                        &before.vertices@[ends(before, e).0 as int].attr,
                        &before.vertices@[ends(before, e).1 as int].attr,
                    ),
                    merged,
                )
            }
        &&& requeued(
            after,
            cost,
            live_after,
            Some(survivor(before, e)),
            after.edges@.len(),
            rest,
            queue_after,
        )
    }
}

/// `passes` passes, one after another, lead from the first mesh, marks and
/// queue to the last.  Each pass begins with more vertices than `target`.
pub open spec fn runs<VA, EA, FA, C: Fn(&VA, &VA) -> u64, M: Fn(&VA, &VA) -> VA>(
    before: &Mesh<VA, EA, FA>,
    live_before: Seq<bool>,
    queue_before: Multiset<Entry>,
    after: &Mesh<VA, EA, FA>,
    live_after: Seq<bool>,
    queue_after: Multiset<Entry>,
    cost: C,
    merge: M,
    target: usize,
    passes: nat,
) -> bool
    decreases passes,
{
    if passes == 0 {
        same_mesh(before, after) && live_after == live_before && queue_after == queue_before
    } else {
        exists|mid: Mesh<VA, EA, FA>, live_mid: Seq<bool>, queue_mid: Multiset<Entry>, popped: Entry|
            {
                &&& runs(
                    before,
                    live_before,
                    queue_before,
                    &mid,
                    live_mid,
                    queue_mid,
                    cost,
                    merge,
                    target,
                    (passes - 1) as nat,
                )
                &&& mid.vertices@.len() > target
                &&& #[trigger] passes_with(
                    &mid,
                    live_mid,
                    queue_mid,
                    after,
                    live_after,
                    queue_after,
                    cost,
                    merge,
                    popped,
                )
            }
    }
}

/// The marks with which the simplification begins: each of `n` edges is live.
pub open spec fn all_live(n: nat) -> Seq<bool> {
    Seq::new(n, |g: int| true)
}

/// The simplification ran from `before` to `after`: every edge was live and
/// queued under its cost, passes followed one another while the mesh had
/// more vertices than `target`, and at the end it had no more than `target`
/// or the queue was empty.
pub open spec fn simplifies_to<VA, EA, FA, C: Fn(&VA, &VA) -> u64, M: Fn(&VA, &VA) -> VA>(
    before: &Mesh<VA, EA, FA>,
    after: &Mesh<VA, EA, FA>,
    cost: C,
    merge: M,
    target: usize,
) -> bool {
    exists|
        queue_first: Multiset<Entry>,
        live_last: Seq<bool>,
        queue_last: Multiset<Entry>,
        passes: nat,
    |
        {
            &&& requeued(
                before,
                cost,
                all_live(before.edges@.len()),
                None,
                before.edges@.len(),
                Multiset::<Entry>::empty(),
                queue_first,
            )
            &&& #[trigger] runs(
                before,
                all_live(before.edges@.len()),
                queue_first,
                after,
                live_last,
                queue_last,
                cost,
                merge,
                target,
                passes,
            )
            &&& (after.vertices@.len() <= target || queue_last.len() == 0)
        }
}

/// A pass more at the end of a run is a run of one pass more.
pub proof fn lemma_run_on<VA, EA, FA, C: Fn(&VA, &VA) -> u64, M: Fn(&VA, &VA) -> VA>(
    first: &Mesh<VA, EA, FA>,
    live_first: Seq<bool>,
    queue_first: Multiset<Entry>,
    mid: &Mesh<VA, EA, FA>,
    live_mid: Seq<bool>,
    queue_mid: Multiset<Entry>,
    last: &Mesh<VA, EA, FA>,
    live_last: Seq<bool>,
    queue_last: Multiset<Entry>,
    cost: C,
    merge: M,
    target: usize,
    passes: nat,
    popped: Entry,
)
    requires
        runs(first, live_first, queue_first, mid, live_mid, queue_mid, cost, merge, target, passes),
        mid.vertices@.len() > target,
        passes_with(mid, live_mid, queue_mid, last, live_last, queue_last, cost, merge, popped),
    ensures
        runs(first, live_first, queue_first, last, live_last, queue_last, cost, merge, target, passes + 1),
{
    let m = *mid;
    assert(runs(first, live_first, queue_first, &m, live_mid, queue_mid, cost, merge, target, passes));
    assert(passes_with(&m, live_mid, queue_mid, last, live_last, queue_last, cost, merge, popped));
}

/// A collapse keeps the ring of every vertex that stays, under the handle
/// that the vertex has afterwards, and the cycle of every face.
pub proof fn lemma_collapse_keeps_rings<VA, EA, FA>(
    before: &Mesh<VA, EA, FA>,
    after: &Mesh<VA, EA, FA>,
    e: usize,
    merged: VA,
    v: usize,
)
    requires
        before.valid_handles(),
        is_collapse(before, after, e, merged),
        v < before.vertices@.len(),
        v != ends(before, e).1,
    ensures
        after.ring(renamed(v, ends(before, e).0, ends(before, e).1)) == before.ring(v),
        forall|f: usize| f < before.faces@.len() ==> #[trigger] after.face_cycle(f) == before.face_cycle(f),
{
    let (kept, gone) = ends(before, e);
    let n = before.halfedges@.len();
    let w = renamed(v, kept, gone);
    assert(after.vertices@[w as int].he_out == before.vertices@[v as int].he_out);
    let start = before.vertices@[v as int].he_out;
    assert(start < n);
    assert forall|a: usize| a < n implies #[trigger] (before.rot_map())(a) == (after.rot_map())(a) && (
    before.rot_map())(a) < n && (before.next_map())(a) == (after.next_map())(a) && (before.next_map())(a)
        < n by {
        assert(after.halfedges@[a as int] == rerooted(before.halfedges@[a as int], kept, gone));
        let t = before.halfedges@[a as int].twin;
        assert(t < n);
        assert(after.halfedges@[t as int] == rerooted(before.halfedges@[t as int], kept, gone));
        assert(before.halfedges@[t as int].next < n);
        assert(before.halfedges@[a as int].next < n);
    }
    lemma_walk_agrees(before.rot_map(), after.rot_map(), n, start, start, n);
    assert forall|f: usize| f < before.faces@.len() implies #[trigger] after.face_cycle(f)
        == before.face_cycle(f) by {
        let first = before.faces@[f as int].he;
        assert(first < n);
        lemma_walk_agrees(before.next_map(), after.next_map(), n, first, first, n);
    }
}

/// A collapse keeps the edges whose two ends were one vertex that way.
pub proof fn lemma_degenerate_stays<VA, EA, FA>(
    before: &Mesh<VA, EA, FA>,
    after: &Mesh<VA, EA, FA>,
    e: usize,
    merged: VA,
    other: usize,
)
    requires
        before.valid_handles(),
        is_collapse(before, after, e, merged),
        other < before.edges@.len(),
        degenerate(before, other),
    ensures
        degenerate(after, other),
{
    let he = before.edges@[other as int].he;
    assert(after.edges@[other as int] == before.edges@[other as int]);
    assert(after.halfedges@[he as int] == rerooted(before.halfedges@[he as int], ends(before, e).0, ends(before, e).1));
    let t = before.halfedges@[he as int].twin;
    assert(after.halfedges@[t as int] == rerooted(before.halfedges@[t as int], ends(before, e).0, ends(before, e).1));
}

impl Simplification {
    /// Simplify the mesh by collapsing edges until the target number of
    /// vertices is reached.
    ///
    /// Edges wait in a queue under the key that `cost` gives for the payloads
    /// of their two ends, and the edge with the smallest key is collapsed
    /// first.  The kept end gets the payload that `merge` gives for the two
    /// ends.  After a collapse the edges that still have two different ends,
    /// one of them the kept vertex, are queued again under a fresh key.  An
    /// edge whose ends are one vertex is passed over.  The work stops when
    /// the mesh has `target_vertex_count` vertices or the queue is empty.
    pub fn edge_collapse<VA, EA, FA, C: Fn(&VA, &VA) -> u64, M: Fn(&VA, &VA) -> VA>(
        mesh: &mut Mesh<VA, EA, FA>,
        target_vertex_count: usize,
        cost: C,
        merge: M,
    )
        requires
            old(mesh).valid_handles(),
            forall|p: &VA, q: &VA| call_requires(cost, (p, q)),
            forall|p: &VA, q: &VA| call_requires(merge, (p, q)),
        ensures
            simplifies_to(old(mesh), final(mesh), cost, merge, target_vertex_count),
            final(mesh).valid_handles(),
            old(mesh).wf() ==> final(mesh).wf(),
            final(mesh).vertices@.len() <= old(mesh).vertices@.len(),
            reduces_to(
                old(mesh),
                final(mesh),
                merge,
                (old(mesh).vertices@.len() - final(mesh).vertices@.len()) as nat,
            ),
            old(mesh).vertices@.len() <= target_vertex_count ==> same_mesh(old(mesh), final(mesh)),
            old(mesh).vertices@.len() > target_vertex_count ==> final(mesh).vertices@.len()
                >= target_vertex_count,
            final(mesh).vertices@.len() > target_vertex_count ==> forall|e: usize|
                e < final(mesh).edges@.len() ==> degenerate(final(mesh), e),
    {
        let ghost start = *mesh;
        let ne = mesh.edges.len();
        let mut heap = MinQueue::new();
        let mut live: Vec<bool> = vec![true; ne];
        let mut e: usize = 0;
        assert(live@ =~= all_live(ne as nat));
        while e < ne
            invariant
                e <= ne,
                ne == mesh.edges@.len(),
                *mesh == start,
                mesh.valid_handles(),
                forall|p: &VA, q: &VA| call_requires(cost, (p, q)),
                heap.wf(),
                forall|x: Entry| heap@.count(x) > 0 ==> x.1 < e,
                forall|g: usize| g < e ==> #[trigger] waits(heap@, g),
                requeued(&start, cost, all_live(ne as nat), None, e as nat, Multiset::<Entry>::empty(), heap@),
            decreases ne - e,
        {
            let c = Self::compute_edge_cost(mesh, e, &cost);
            let ghost waiting = heap@;
            heap.push(c, e);
            proof {
                assert forall|g: usize| g < e + 1 implies #[trigger] waits(heap@, g) by {
                    if g < e {
                        assert(waits(waiting, g));
                        let k = choose|k: u64| #[trigger] waiting.count((k, g)) > 0;
                        assert(heap@.count((k, g)) > 0);
                    } else {
                        assert(heap@.count((c, g)) > 0);
                    }
                }
                assert(queued_next(&start, cost, all_live(ne as nat), None, e, waiting, heap@));
                lemma_requeue_next(
                    &start,
                    cost,
                    all_live(ne as nat),
                    None,
                    e,
                    Multiset::<Entry>::empty(),
                    waiting,
                    heap@,
                );
            }
            e += 1;
        }
        let ghost queue_first = heap@;
        let ghost mut passes: nat = 0;
        loop
            invariant
                ne == mesh.edges@.len(),
                ne == start.edges@.len(),
                live@.len() == ne,
                mesh.valid_handles(),
                start.wf() ==> mesh.wf(),
                forall|p: &VA, q: &VA| call_requires(cost, (p, q)),
                forall|p: &VA, q: &VA| call_requires(merge, (p, q)),
                heap.wf(),
                forall|x: Entry| heap@.count(x) > 0 ==> x.1 < ne,
                forall|g: usize| g < ne && live@[g as int] ==> #[trigger] waits(heap@, g),
                forall|g: usize| g < ne && !live@[g as int] ==> degenerate(mesh, g),
                mesh.vertices@.len() <= start.vertices@.len(),
                reduces_to(&start, mesh, merge, (start.vertices@.len() - mesh.vertices@.len()) as nat),
                start.vertices@.len() <= target_vertex_count ==> same_mesh(&start, mesh),
                start.vertices@.len() > target_vertex_count ==> mesh.vertices@.len() >= target_vertex_count,
                requeued(
                    &start,
                    cost,
                    all_live(ne as nat),
                    None,
                    ne as nat,
                    Multiset::<Entry>::empty(),
                    queue_first,
                ),
                runs(
                    &start,
                    all_live(ne as nat),
                    queue_first,
                    mesh,
                    live@,
                    heap@,
                    cost,
                    merge,
                    target_vertex_count,
                    passes,
                ),
            ensures
                mesh.vertices@.len() > target_vertex_count ==> forall|g: usize|
                    g < ne ==> degenerate(mesh, g),
                mesh.vertices@.len() <= target_vertex_count || heap@.len() == 0,
            decreases count_live(live@), heap@.len(),
        {
            if mesh.vertices.len() <= target_vertex_count {
                break ;
            }
            let ghost prev = *mesh;
            let ghost live_prev = live@;
            let ghost waiting = heap@;
            let popped = heap.pop();
            let entry = match popped {
                None => {
                    proof {
                        assert forall|g: usize| g < ne implies degenerate(mesh, g) by {
                            if live@[g as int] {
                                assert(waits(waiting, g));
                                let k = choose|k: u64| #[trigger] waiting.count((k, g)) > 0;
                                assert(waiting.count((k, g)) <= waiting.len());
                            }
                        }
                    }
                    break ;
                },
                Some(x) => x,
            };
            let e_id = entry.1;
            proof {
                assert forall|g: usize| g < ne && g != e_id && live@[g as int] implies #[trigger] waits(
                    heap@,
                    g,
                ) by {
                    assert(waits(waiting, g));
                    let k = choose|k: u64| #[trigger] waiting.count((k, g)) > 0;
                    assert(heap@.count((k, g)) > 0);
                }
            }
            if !live[e_id] {
                proof {
                    assert(passes_with(&prev, live_prev, waiting, mesh, live@, heap@, cost, merge, entry));
                    lemma_run_on(
                        &start,
                        all_live(ne as nat),
                        queue_first,
                        &prev,
                        live_prev,
                        waiting,
                        mesh,
                        live@,
                        heap@,
                        cost,
                        merge,
                        target_vertex_count,
                        passes,
                        entry,
                    );
                    passes = passes + 1;
                }
                continue ;
            }
            proof {
                lemma_count_live_drop(live@, e_id as int);
            }
            live.set(e_id, false);
            let he = mesh.edges[e_id].he;
            let v0 = mesh.halfedges[he].from;
            let v1 = mesh.halfedges[mesh.halfedges[he].twin].from;
            if v0 == v1 {
                proof {
                    assert(passes_with(&prev, live_prev, waiting, mesh, live@, heap@, cost, merge, entry));
                    lemma_run_on(
                        &start,
                        all_live(ne as nat),
                        queue_first,
                        &prev,
                        live_prev,
                        waiting,
                        mesh,
                        live@,
                        heap@,
                        cost,
                        merge,
                        target_vertex_count,
                        passes,
                        entry,
                    );
                    passes = passes + 1;
                }
                continue ;
            }
            let merged = merge(&mesh.vertices[v0].attr, &mesh.vertices[v1].attr);
            Self::collapse_edge(mesh, e_id, merged);
            proof {
                assert forall|g: usize| g < ne && !live@[g as int] implies degenerate(mesh, g) by {
                    if g != e_id {
                        lemma_degenerate_stays(&prev, mesh, e_id, merged, g);
                    }
                }
                assert(reduces_to(&start, mesh, merge, (start.vertices@.len() - mesh.vertices@.len()) as nat)) by {
                    assert(reduces_to(&start, &prev, merge, (start.vertices@.len() - prev.vertices@.len()) as nat));
                    assert(is_collapse(&prev, mesh, e_id, merged));
                }
            }
            let kept = if v0 > v1 {
                v0 - 1
            } else {
                v0
            };
            assert(kept == survivor(&prev, e_id));
            let ghost rest = heap@;
            let ghost after = *mesh;
            let mut g: usize = 0;
            while g < ne
                invariant
                    g <= ne,
                    ne == mesh.edges@.len(),
                    live@.len() == ne,
                    *mesh == after,
                    mesh.valid_handles(),
                    forall|p: &VA, q: &VA| call_requires(cost, (p, q)),
                    heap.wf(),
                    forall|x: Entry| heap@.count(x) > 0 ==> x.1 < ne,
                    forall|j: usize| j < ne && live@[j as int] ==> #[trigger] waits(heap@, j),
                    requeued(&after, cost, live@, Some(kept), g as nat, rest, heap@),
                decreases ne - g,
            {
                let ghost waiting2 = heap@;
                if live[g] {
                    let rep = mesh.edges[g].he;
                    let a = mesh.halfedges[rep].from;
                    let b = mesh.halfedges[mesh.halfedges[rep].twin].from;
                    if a != b && (a == kept || b == kept) {
                        let c = cost(&mesh.vertices[a].attr, &mesh.vertices[b].attr);
                        heap.push(c, g);
                        proof {
                            assert(queued_next(&after, cost, live@, Some(kept), g, waiting2, heap@));
                            assert forall|j: usize| j < ne && live@[j as int] implies #[trigger] waits(
                                heap@,
                                j,
                            ) by {
                                assert(waits(waiting2, j));
                                let k = choose|k: u64| #[trigger] waiting2.count((k, j)) > 0;
                                assert(heap@.count((k, j)) > 0);
                            }
                        }
                    }
                }
                proof {
                    assert(queued_next(&after, cost, live@, Some(kept), g, waiting2, heap@));
                    lemma_requeue_next(&after, cost, live@, Some(kept), g, rest, waiting2, heap@);
                }
                g += 1;
            }
            proof {
                assert(requeued(&after, cost, live@, Some(survivor(&prev, e_id)), after.edges@.len(), rest, heap@));
                assert(is_collapse(&prev, &after, e_id, merged));
                assert(passes_with(&prev, live_prev, waiting, &after, live@, heap@, cost, merge, entry));
                lemma_run_on(
                    &start,
                    all_live(ne as nat),
                    queue_first,
                    &prev,
                    live_prev,
                    waiting,
                    &after,
                    live@,
                    heap@,
                    cost,
                    merge,
                    target_vertex_count,
                    passes,
                    entry,
                );
                passes = passes + 1;
            }
        }
        proof {
            assert(runs(
                &start,
                all_live(ne as nat),
                queue_first,
                mesh,
                live@,
                heap@,
                cost,
                merge,
                target_vertex_count,
                passes,
            ));
        }
    }

    /// Compute the cost of collapsing an edge: what `cost` gives for the
    /// payloads of its two ends.
    pub fn compute_edge_cost<VA, EA, FA, C: Fn(&VA, &VA) -> u64>(
        mesh: &Mesh<VA, EA, FA>,
        e_id: EdgeId,
        cost: &C,
    ) -> (c: u64)
        requires
            mesh.valid_handles(),
            e_id < mesh.edges@.len(),
            call_requires(
                *cost,
                (
                    &mesh.vertices@[ends(mesh, e_id).0 as int].attr,
                    &mesh.vertices@[ends(mesh, e_id).1 as int].attr,
                ),
            ),
        ensures
            call_ensures(
                *cost,
                (
                    &mesh.vertices@[ends(mesh, e_id).0 as int].attr,
                    &mesh.vertices@[ends(mesh, e_id).1 as int].attr,
                ),
                c,
            ),
    {
        let he = mesh.edges[e_id].he;
        let v0 = mesh.halfedges[he].from;
        let v1 = mesh.halfedges[mesh.halfedges[he].twin].from;
        cost(&mesh.vertices[v0].attr, &mesh.vertices[v1].attr)
    }

    /// Collapse an edge: give its first end the payload `merged`, let every
    /// half-edge that left its second end leave the first, and take the
    /// second end out of the vertex array.
    pub fn collapse_edge<VA, EA, FA>(mesh: &mut Mesh<VA, EA, FA>, e_id: EdgeId, merged: VA)
        requires
            old(mesh).valid_handles(),
            e_id < old(mesh).edges@.len(),
            !degenerate(old(mesh), e_id),
        ensures
            is_collapse(old(mesh), final(mesh), e_id, merged),
            final(mesh).valid_handles(),
            old(mesh).wf() ==> final(mesh).wf(),
            old(mesh).head_to_tail() ==> final(mesh).head_to_tail(),
            degenerate(final(mesh), e_id),
    {
        let he = mesh.edges[e_id].he;
        let v0 = mesh.halfedges[he].from;
        let v1 = mesh.halfedges[mesh.halfedges[he].twin].from;
        let ghost before = *mesh;
        let he_out = mesh.vertices[v0].he_out;
        mesh.vertices.set(v0, Vertex { he_out, attr: merged });
        mesh.vertices.remove(v1);
        let n = mesh.halfedges.len();
        let mut h: usize = 0;
        while h < n
            invariant
                h <= n,
                n == before.halfedges@.len(),
                mesh.halfedges@.len() == n,
                v0 != v1,
                v0 < before.vertices@.len(),
                v1 < before.vertices@.len(),
                before.valid_handles(),
                mesh.vertices@ == before.vertices@.update(
                    v0 as int,
                    Vertex { he_out, attr: merged },
                ).remove(v1 as int),
                mesh.edges@ == before.edges@,
                mesh.faces@ == before.faces@,
                forall|k: int| 0 <= k < h ==> #[trigger] mesh.halfedges@[k] == rerooted(before.halfedges@[k], v0, v1),
                forall|k: int| h <= k < n ==> #[trigger] mesh.halfedges@[k] == before.halfedges@[k],
            decreases n - h,
        {
            let mut moved = mesh.halfedges[h];
            assert(moved.from < before.vertices@.len());
            if moved.from == v1 {
                moved.from = v0;
            }
            if moved.from > v1 {
                moved.from = moved.from - 1;
            }
            mesh.halfedges.set(h, moved);
            h += 1;
        }
        proof {
            assert forall|v: usize| v < before.vertices@.len() && v != v1 implies {
                let w = #[trigger] renamed(v, v0, v1);
                &&& mesh.vertices@[w as int].he_out == before.vertices@[v as int].he_out
                &&& mesh.vertices@[w as int].attr == if v == v0 {
                    merged
                } else {
                    before.vertices@[v as int].attr
                }
            } by {}
            assert(mesh.valid_handles()) by {
                assert forall|k: int| 0 <= k < mesh.halfedges@.len() implies {
                    let x = #[trigger] mesh.halfedges@[k];
                    &&& x.from < mesh.vertices@.len()
                    &&& x.twin < mesh.halfedges@.len()
                    &&& x.next < mesh.halfedges@.len()
                    &&& x.edge < mesh.edges@.len()
                    &&& (x.face < mesh.faces@.len() || x.face == crate::mesh::half_edge::NO_FACE)
                } by {
                    assert(mesh.halfedges@[k] == rerooted(before.halfedges@[k], v0, v1));
                }
                assert forall|v: int| 0 <= v < mesh.vertices@.len() implies (#[trigger] mesh.vertices@[v]).he_out
                    < mesh.halfedges@.len() by {
                    if v < v1 {
                        assert(before.vertices@[v].he_out < n);
                    } else {
                        assert(before.vertices@[v + 1].he_out < n);
                    }
                }
            }
            if before.head_to_tail() {
                assert forall|k: usize| k < mesh.halfedges@.len() implies mesh.origin(
                    #[trigger] mesh.next(k),
                ) == mesh.dest(k) by {
                    assert(before.origin(before.next(k)) == before.dest(k));
                    assert(before.halfedges@[k as int].next < before.halfedges@.len());
                    assert(before.halfedges@[k as int].twin < before.halfedges@.len());
                }
            }
            if before.wf() {
                assert forall|k: usize| k < mesh.halfedges@.len() implies mesh.twin(#[trigger] mesh.twin(k)) == k by {
                    assert(before.twin(before.twin(k)) == k);
                }
                assert forall|a: usize, b: usize|
                    a < mesh.halfedges@.len() && b < mesh.halfedges@.len() && #[trigger] mesh.next(a)
                        == #[trigger] mesh.next(b) implies a == b by {
                    assert(before.next(a) == before.next(b));
                }
            }
        }
    }
}

} // verus!
