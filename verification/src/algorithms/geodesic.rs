//! Single-source shortest distances over the vertices and edges of a mesh.

use vstd::prelude::*;
use crate::mesh::half_edge::{Mesh, VertexId};
use crate::queue::{Entry, MinQueue};

verus! {

/// Geodesic distance computations.
pub struct Geodesic;

/// The distance key of a vertex that no route from the source reaches.
pub const UNREACHED: u64 = u64::MAX;

/// The sum of the keys in `dist`.
pub open spec fn total(dist: Seq<u64>) -> nat
    decreases dist.len(),
{
    if dist.len() == 0 {
        0
    } else {
        total(dist.drop_last()) + dist.last() as nat
    }
}

/// Lowering one key lowers the sum by as much.
pub proof fn lemma_total_update(dist: Seq<u64>, i: int, key: u64)
    requires
        0 <= i < dist.len(),
    ensures
        total(dist.update(i, key)) + dist[i] == total(dist) + key,
    decreases dist.len(),
{
    let changed = dist.update(i, key);
    if i == dist.len() - 1 {
        assert(changed.drop_last() =~= dist.drop_last());
    } else {
        lemma_total_update(dist.drop_last(), i, key);
        assert(changed.drop_last() =~= dist.drop_last().update(i, key));
    }
}

/// One step along an edge: `v` lies at the far end of an outgoing half-edge
/// of `u`, and `advance` may give `dv` for the distance `du` at `u`.
pub open spec fn hop<VA, EA, FA, F: Fn(u64, &VA, &VA) -> u64>(
    mesh: &Mesh<VA, EA, FA>,
    advance: F,
    u: usize,
    du: u64,
    v: usize,
    dv: u64,
) -> bool {
    &&& u < mesh.vertices@.len()
    &&& v < mesh.vertices@.len()
    &&& exists|i: int| 0 <= i < mesh.ring(u).len() && mesh.dest(#[trigger] mesh.ring(u)[i]) == v
    &&& call_ensures(advance, (du, &mesh.vertices@[u as int].attr, &mesh.vertices@[v as int].attr), dv)
}

/// `route` lists vertices with distances: it starts at `source` with
/// distance 0, and each later entry is one hop from the entry before it.
pub open spec fn is_route<VA, EA, FA, F: Fn(u64, &VA, &VA) -> u64>(
    mesh: &Mesh<VA, EA, FA>,
    advance: F,
    source: usize,
    route: Seq<Entry>,
) -> bool {
    &&& route.len() >= 1
    &&& route[0] == (0u64, source)
    &&& forall|i: int|
        0 <= i < route.len() - 1 ==> hop(
            mesh,
            advance,
            (#[trigger] route[i]).1,
            route[i].0,
            route[i + 1].1,
            route[i + 1].0,
        )
}

/// Some route from `source` ends at `v` with distance `d`.
pub open spec fn reaches<VA, EA, FA, F: Fn(u64, &VA, &VA) -> u64>(
    mesh: &Mesh<VA, EA, FA>,
    advance: F,
    source: usize,
    v: usize,
    d: u64,
) -> bool {
    exists|route: Seq<Entry>| #[trigger] is_route(mesh, advance, source, route) && route.last() == (d, v)
}

/// Going from `u` to `v` does not undercut the distance of `v`: `advance`
/// may give, for the distance of `u`, a value that is no less than it.
pub open spec fn no_shortcut<VA, EA, FA, F: Fn(u64, &VA, &VA) -> u64>(
    mesh: &Mesh<VA, EA, FA>,
    advance: F,
    dist: Seq<u64>,
    u: usize,
    v: usize,
) -> bool {
    exists|dv: u64|
        #[trigger] call_ensures(
            advance,
            (dist[u as int], &mesh.vertices@[u as int].attr, &mesh.vertices@[v as int].attr),
            dv,
        ) && dist[v as int] <= dv
}

/// No outgoing half-edge of `u` undercuts the distance of the vertex it leads to.
pub open spec fn relaxed<VA, EA, FA, F: Fn(u64, &VA, &VA) -> u64>(
    mesh: &Mesh<VA, EA, FA>,
    advance: F,
    dist: Seq<u64>,
    u: usize,
) -> bool {
    forall|i: int|
        0 <= i < mesh.ring(u).len() ==> no_shortcut(
            mesh,
            advance,
            dist,
            u,
            mesh.dest(#[trigger] mesh.ring(u)[i]),
        )
}

impl Geodesic {
    /// Compute shortest-path distances from `source` to all vertices using
    /// Dijkstra's algorithm over the edge graph.
    ///
    /// Distances are keys that are ordered as the lengths they stand for.
    /// `advance(d, p, q)` is the key of the distance at the far end of an edge
    /// whose near end has payload `p` and distance key `d`, and whose far end
    /// has payload `q`.  The source has key 0; a vertex that is not reached
    /// keeps `UNREACHED`.
    pub fn dijkstra<VA, EA, FA, F: Fn(u64, &VA, &VA) -> u64>(
        mesh: &Mesh<VA, EA, FA>,
        source: VertexId,
        advance: F,
    ) -> (dist: Vec<u64>)
        requires
            mesh.valid_handles(),
            source < mesh.vertices@.len(),
            forall|d: u64, u: usize, v: usize|
                u < mesh.vertices@.len() && v < mesh.vertices@.len() ==> call_requires(
                    advance,
                    (d, &mesh.vertices@[u as int].attr, &mesh.vertices@[v as int].attr),
                ),
        ensures
            dist@.len() == mesh.vertices@.len(),
            dist@[source as int] == 0,
            forall|v: usize|
                v < dist@.len() && #[trigger] dist@[v as int] != UNREACHED ==> reaches(
                    mesh,
                    advance,
                    source,
                    v,
                    dist@[v as int],
                ),
            forall|v: usize|
                v < dist@.len() && #[trigger] dist@[v as int] != UNREACHED ==> relaxed(
                    mesh,
                    advance,
                    dist@,
                    v,
                ),
    {
        let n = mesh.vertices.len();
        let mut dist: Vec<u64> = vec![UNREACHED; n];
        let mut heap = MinQueue::new();
        dist.set(source, 0);
        heap.push(0, source);
        proof {
            let route = seq![(0u64, source)];
            assert(is_route(mesh, advance, source, route));
            assert(route.last() == (0u64, source));
        }
        loop
            invariant
                mesh.valid_handles(),
                source < n,
                n == mesh.vertices@.len(),
                forall|d: u64, u: usize, v: usize|
                    u < mesh.vertices@.len() && v < mesh.vertices@.len() ==> call_requires(
                        advance,
                        (d, &mesh.vertices@[u as int].attr, &mesh.vertices@[v as int].attr),
                    ),
                dist@.len() == n,
                heap.wf(),
                dist@[source as int] == 0,
                forall|e: Entry|
                    heap@.count(e) > 0 ==> e.1 < n && e.0 != UNREACHED && dist@[e.1 as int] <= e.0,
                forall|v: usize|
                    v < n && #[trigger] dist@[v as int] != UNREACHED ==> reaches(
                        mesh,
                        advance,
                        source,
                        v,
                        dist@[v as int],
                    ),
                forall|v: usize|
                    v < n && #[trigger] dist@[v as int] != UNREACHED ==> heap@.count(
                        (dist@[v as int], v),
                    ) > 0 || relaxed(mesh, advance, dist@, v),
            ensures
                heap@.len() == 0,
            decreases total(dist@), heap@.len(),
        {
            let ghost total_before = total(dist@);
            let ghost waiting_before = heap@.len();
            let popped = heap.pop();
            let (d, v) = match popped {
                None => {
                    break ;
                },
                Some(e) => e,
            };
            if d > dist[v] {
                continue ;
            }
            assert(d == dist@[v as int]);
            assert(reaches(mesh, advance, source, v, d));
            let ring = mesh.vertex_ring(v);
            let mut i: usize = 0;
            while i < ring.len()
                invariant
                    mesh.valid_handles(),
                    source < n,
                    v < n,
                    n == mesh.vertices@.len(),
                    forall|d: u64, u: usize, v: usize|
                    u < mesh.vertices@.len() && v < mesh.vertices@.len() ==> call_requires(
                        advance,
                        (d, &mesh.vertices@[u as int].attr, &mesh.vertices@[v as int].attr),
                    ),
                    dist@.len() == n,
                    heap.wf(),
                    dist@[source as int] == 0,
                    i <= ring@.len(),
                    ring@ == mesh.ring(v),
                    forall|k: int| 0 <= k < ring@.len() ==> #[trigger] ring@[k] < mesh.halfedges@.len(),
                    d != UNREACHED,
                    reaches(mesh, advance, source, v, d),
                    forall|e: Entry|
                        heap@.count(e) > 0 ==> e.1 < n && e.0 != UNREACHED && dist@[e.1 as int]
                            <= e.0,
                    forall|u: usize|
                        u < n && #[trigger] dist@[u as int] != UNREACHED ==> reaches(
                            mesh,
                            advance,
                            source,
                            u,
                            dist@[u as int],
                        ),
                    forall|u: usize|
                        u < n && u != v && #[trigger] dist@[u as int] != UNREACHED ==> heap@.count(
                            (dist@[u as int], u),
                        ) > 0 || relaxed(mesh, advance, dist@, u),
                    heap@.count((dist@[v as int], v)) > 0 || (dist@[v as int] == d && forall|k: int|
                        0 <= k < i ==> no_shortcut(
                            mesh,
                            advance,
                            dist@,
                            v,
                            mesh.dest(#[trigger] mesh.ring(v)[k]),
                        )),
                    total(dist@) <= total_before,
                    total(dist@) == total_before ==> heap@.len() == waiting_before - 1,
                decreases ring@.len() - i,
            {
                let he = ring[i];
                let to = mesh.halfedges[mesh.halfedges[he].twin].from;
                let nd = advance(d, &mesh.vertices[v].attr, &mesh.vertices[to].attr);
                assert(to == mesh.dest(mesh.ring(v)[i as int]));
                if nd < dist[to] {
                    let ghost old_dist = dist@;
                    let ghost old_heap = heap@;
                    proof {
                        lemma_total_update(dist@, to as int, nd);
                        let route = choose|route: Seq<Entry>| #[trigger]
                            is_route(mesh, advance, source, route) && route.last() == (d, v);
                        let longer = route.push((nd, to));
                        assert(hop(mesh, advance, v, d, to, nd));
                        assert forall|k: int| 0 <= k < longer.len() - 1 implies hop(
                            mesh,
                            advance,
                            (#[trigger] longer[k]).1,
                            longer[k].0,
                            longer[k + 1].1,
                            longer[k + 1].0,
                        ) by {
                            if k < route.len() - 1 {
                                assert(longer[k] == route[k]);
                                assert(longer[k + 1] == route[k + 1]);
                            }
                        }
                        assert(is_route(mesh, advance, source, longer));
                        assert(longer.last() == (nd, to));
                        assert(reaches(mesh, advance, source, to, nd));
                    }
                    dist.set(to, nd);
                    heap.push(nd, to);
                    proof {
                        assert forall|u: usize|
                            u < n && u != v && #[trigger] dist@[u as int] != UNREACHED implies heap@.count(
                            (dist@[u as int], u),
                        ) > 0 || relaxed(mesh, advance, dist@, u) by {
                            if u != to && old_heap.count((old_dist[u as int], u)) == 0 {
                                lemma_relaxed_survives(mesh, advance, old_dist, dist@, u);
                            }
                        }
                        if to != v && old_heap.count((old_dist[v as int], v)) == 0 {
                            assert forall|k: int| 0 <= k < i + 1 implies no_shortcut(
                                mesh,
                                advance,
                                dist@,
                                v,
                                mesh.dest(#[trigger] mesh.ring(v)[k]),
                            ) by {
                                let w = mesh.dest(mesh.ring(v)[k]);
                                assert(mesh.ring(v)[k] < mesh.halfedges@.len());
                                if k < i {
                                    lemma_no_shortcut_survives(mesh, advance, old_dist, dist@, v, w);
                                }
                            }
                        }
                    }
                } else {
                    assert(dist@[v as int] == d ==> no_shortcut(mesh, advance, dist@, v, to));
                }
                i += 1;
            }
            assert(dist@[v as int] != UNREACHED ==> heap@.count((dist@[v as int], v)) > 0 || relaxed(
                mesh,
                advance,
                dist@,
                v,
            ));
        }
        assert forall|v: usize| v < dist@.len() && #[trigger] dist@[v as int] != UNREACHED implies relaxed(
            mesh,
            advance,
            dist@,
            v,
        ) by {
            assert(heap@.count((dist@[v as int], v)) <= heap@.len());
        }
        dist
    }
}

/// `advance` never gives less than the distance it starts from, and never
/// less for a greater distance than for a smaller one over the same edge.
/// For one distance over one edge it then gives one value only.
pub open spec fn monotone<VA, F: Fn(u64, &VA, &VA) -> u64>(advance: F) -> bool {
    &&& forall|d: u64, p: &VA, q: &VA, r: u64| #[trigger] call_ensures(advance, (d, p, q), r) ==> d <= r
    &&& forall|d: u64, e: u64, p: &VA, q: &VA, r: u64, s: u64|
        d <= e && #[trigger] call_ensures(advance, (d, p, q), r) && #[trigger] call_ensures(
            advance,
            (e, p, q),
            s,
        ) ==> r <= s
}

/// The distances that Dijkstra's algorithm returns are the shortest.
///
/// Let `dist` hold 0 for the source and let no outgoing half-edge of a
/// reached vertex undercut the distance of the vertex it leads to, as
/// `dijkstra` ensures.  Where `advance` is monotone, no route from the source
/// ends at a vertex with less than the distance that `dist` holds for it.
pub proof fn lemma_no_route_is_shorter<VA, EA, FA, F: Fn(u64, &VA, &VA) -> u64>(
    mesh: &Mesh<VA, EA, FA>,
    advance: F,
    source: usize,
    dist: Seq<u64>,
    route: Seq<Entry>,
)
    requires
        dist.len() == mesh.vertices@.len(),
        source < dist.len(),
        dist[source as int] == 0,
        forall|v: usize|
            v < dist.len() && #[trigger] dist[v as int] != UNREACHED ==> relaxed(mesh, advance, dist, v),
        monotone(advance),
        is_route(mesh, advance, source, route),
    ensures
        route.last().1 < dist.len(),
        dist[route.last().1 as int] <= route.last().0,
    decreases route.len(),
{
    if route.len() > 1 {
        let shorter = route.drop_last();
        assert(is_route(mesh, advance, source, shorter)) by {
            assert forall|i: int| 0 <= i < shorter.len() - 1 implies hop(
                mesh,
                advance,
                (#[trigger] shorter[i]).1,
                shorter[i].0,
                shorter[i + 1].1,
                shorter[i + 1].0,
            ) by {
                assert(shorter[i] == route[i]);
                assert(shorter[i + 1] == route[i + 1]);
            }
        }
        lemma_no_route_is_shorter(mesh, advance, source, dist, shorter);
        let (du, u) = route[route.len() - 2];
        let (dv, v) = route[route.len() - 1];
        assert(shorter.last() == route[route.len() - 2]);
        assert(hop(mesh, advance, u, du, v, dv));
        if dist[u as int] != UNREACHED {
            let i = choose|i: int| 0 <= i < mesh.ring(u).len() && mesh.dest(#[trigger] mesh.ring(u)[i]) == v;
            assert(no_shortcut(mesh, advance, dist, u, mesh.dest(mesh.ring(u)[i])));
            let through = choose|through: u64|
                #[trigger] call_ensures(
                    advance,
                    (dist[u as int], &mesh.vertices@[u as int].attr, &mesh.vertices@[v as int].attr),
                    through,
                ) && dist[v as int] <= through;
            assert(through <= dv);
        } else {
            assert(du == UNREACHED);
            assert(dv >= du);
        }
    }
}

/// Lowering distances elsewhere keeps an edge free of shortcuts, as long as
/// the distance at its near end stays.
pub proof fn lemma_no_shortcut_survives<VA, EA, FA, F: Fn(u64, &VA, &VA) -> u64>(
    mesh: &Mesh<VA, EA, FA>,
    advance: F,
    before: Seq<u64>,
    after: Seq<u64>,
    u: usize,
    v: usize,
)
    requires
        before.len() == after.len(),
        u < before.len(),
        v < before.len(),
        before[u as int] == after[u as int],
        after[v as int] <= before[v as int],
        no_shortcut(mesh, advance, before, u, v),
    ensures
        no_shortcut(mesh, advance, after, u, v),
{
    let dv = choose|dv: u64|
        #[trigger] call_ensures(
            advance,
            (before[u as int], &mesh.vertices@[u as int].attr, &mesh.vertices@[v as int].attr),
            dv,
        ) && before[v as int] <= dv;
    assert(call_ensures(
        advance,
        (after[u as int], &mesh.vertices@[u as int].attr, &mesh.vertices@[v as int].attr),
        dv,
    ) && after[v as int] <= dv);
}

/// Lowering distances elsewhere keeps a vertex relaxed, as long as its own
/// distance stays.
pub proof fn lemma_relaxed_survives<VA, EA, FA, F: Fn(u64, &VA, &VA) -> u64>(
    mesh: &Mesh<VA, EA, FA>,
    advance: F,
    before: Seq<u64>,
    after: Seq<u64>,
    u: usize,
)
    requires
        mesh.valid_handles(),
        before.len() == after.len(),
        before.len() == mesh.vertices@.len(),
        u < before.len(),
        before[u as int] == after[u as int],
        forall|w: int| 0 <= w < before.len() ==> after[w] <= before[w],
        relaxed(mesh, advance, before, u),
    ensures
        relaxed(mesh, advance, after, u),
{
    mesh.lemma_ring_in_range(u);
    assert forall|i: int| 0 <= i < mesh.ring(u).len() implies no_shortcut(
        mesh,
        advance,
        after,
        u,
        mesh.dest(#[trigger] mesh.ring(u)[i]),
    ) by {
        let h = mesh.ring(u)[i];
        assert(h < mesh.halfedges@.len());
        assert(mesh.halfedges@[h as int].twin < mesh.halfedges@.len());
        assert(mesh.halfedges@[mesh.twin(h) as int].from < mesh.vertices@.len());
        lemma_no_shortcut_survives(mesh, advance, before, after, u, mesh.dest(h));
    }
}

} // verus!
