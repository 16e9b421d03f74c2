//! Meshes to and from raw arrays: vertex payloads, the number of corners of
//! each polygon, and the corners of all polygons in one run.

use vstd::prelude::*;
use std::collections::HashMap;
use crate::error::Error;
use crate::mesh::half_edge::{Edge, Face, HalfEdge, Mesh, Vertex};

verus! {

/// The number of corners of the polygons before polygon `f`: where the
/// corners of polygon `f` begin in the run of all corners.
pub open spec fn base(counts: Seq<usize>, f: int) -> int
    decreases f,
{
    if f <= 0 {
        0
    } else {
        base(counts, f - 1) + counts[f - 1]
    }
}

/// The arrays describe polygons over `n` vertices: every polygon has a
/// corner, the polygons use up the corners exactly, and every corner names
/// one of the vertices.
pub open spec fn raw_arrays_valid(n: nat, counts: Seq<usize>, indices: Seq<usize>) -> bool {
    &&& forall|f: int| 0 <= f < counts.len() ==> #[trigger] counts[f] >= 1
    &&& base(counts, counts.len() as int) == indices.len()
    &&& forall|i: int| 0 <= i < indices.len() ==> #[trigger] indices[i] < n
}

/// The corners of later polygons begin no earlier.
pub proof fn lemma_base_monotonic(counts: Seq<usize>, f: int, g: int)
    requires
        0 <= f <= g,
    ensures
        base(counts, f) <= base(counts, g),
    decreases g - f,
{
    if f < g {
        lemma_base_monotonic(counts, f, g - 1);
    }
}

/// Tell whether the arrays describe polygons over `n` vertices.
pub fn check_raw_arrays(n: usize, counts: &[usize], indices: &[usize]) -> (ok: bool)
    ensures
        ok == raw_arrays_valid(n as nat, counts@, indices@),
{
    let mut used: usize = 0;
    let mut f: usize = 0;
    while f < counts.len()
        invariant
            f <= counts@.len(),
            used == base(counts@, f as int),
            used <= indices@.len(),
            forall|g: int| 0 <= g < f ==> #[trigger] counts@[g] >= 1,
        decreases counts@.len() - f,
    {
        let c = counts[f];
        if c == 0 {
            return false;
        }
        if c > indices.len() - used {
            proof {
                assert(base(counts@, f + 1) > indices@.len());
                lemma_base_monotonic(counts@, f + 1, counts@.len() as int);
            }
            return false;
        }
        used = used + c;
        f += 1;
    }
    if used != indices.len() {
        return false;
    }
    let mut i: usize = 0;
    while i < indices.len()
        invariant
            i <= indices@.len(),
            forall|j: int| 0 <= j < i ==> #[trigger] indices@[j] < n,
        decreases indices@.len() - i,
    {
        if indices[i] >= n {
            return false;
        }
        i += 1;
    }
    true
}

/// Where corner `k` of polygon `f` stands in the run of all corners; the
/// half-edge that leaves that corner has the same index.
pub open spec fn corner(counts: Seq<usize>, f: int, k: int) -> int {
    base(counts, f) + k
}

/// The half-edges are laid out polygon by polygon: the half-edge of a corner
/// leaves the vertex of that corner, belongs to the face of the polygon, and
/// is followed by the half-edge of the polygon's next corner, the last one by
/// the first.
pub open spec fn laid_out(hs: Seq<HalfEdge>, counts: Seq<usize>, indices: Seq<usize>) -> bool {
    &&& hs.len() == indices.len()
    &&& forall|f: int, k: int|
        0 <= f < counts.len() && 0 <= k < counts[f] ==> {
            let h = #[trigger] corner(counts, f, k);
            &&& 0 <= h < hs.len()
            &&& hs[h].from == indices[h]
            &&& hs[h].face == f
            &&& hs[h].next == if k + 1 == counts[f] {
                base(counts, f)
            } else {
                h + 1
            }
        }
}

/// Lay the half-edges and faces out, polygon by polygon, with no half-edge
/// linked to a twin or an edge yet.
fn lay_out(counts: &[usize], indices: &[usize]) -> (laid: (Vec<HalfEdge>, Vec<Face<()>>))
    requires
        forall|f: int| 0 <= f < counts@.len() ==> #[trigger] counts@[f] >= 1,
        base(counts@, counts@.len() as int) == indices@.len(),
    ensures
        laid_out(laid.0@, counts@, indices@),
        forall|h: int|
            0 <= h < laid.0@.len() ==> {
                let he = #[trigger] laid.0@[h];
                &&& he.from == indices@[h]
                &&& he.next < laid.0@.len()
                &&& he.face < counts@.len()
                &&& he.twin == 0
                &&& he.edge == 0
            },
        forall|x: int, y: int|
            0 <= x < laid.0@.len() && 0 <= y < laid.0@.len() && (#[trigger] laid.0@[x]).next == (
            #[trigger] laid.0@[y]).next ==> x == y,
        laid.1@.len() == counts@.len(),
        forall|f: int| 0 <= f < counts@.len() ==> (#[trigger] laid.1@[f]).he == base(counts@, f),
        forall|f: int| 0 <= f < counts@.len() ==> (#[trigger] laid.1@[f]).he < indices@.len(),
{
    let mut hs: Vec<HalfEdge> = Vec::new();
    let mut faces: Vec<Face<()>> = Vec::new();
    let m = indices.len();
    let mut f: usize = 0;
    while f < counts.len()
        invariant
            f <= counts@.len(),
            m == indices@.len(),
            forall|g: int| 0 <= g < counts@.len() ==> #[trigger] counts@[g] >= 1,
            base(counts@, counts@.len() as int) == indices@.len(),
            hs@.len() == base(counts@, f as int),
            hs@.len() <= indices@.len(),
            faces@.len() == f,
            forall|g: int| 0 <= g < f ==> (#[trigger] faces@[g]).he == base(counts@, g),
            forall|g: int| 0 <= g < f ==> (#[trigger] faces@[g]).he < indices@.len(),
            forall|g: int, k: int|
                0 <= g < f && 0 <= k < counts@[g] ==> {
                    let h = #[trigger] corner(counts@, g, k);
                    &&& 0 <= h < hs@.len()
                    &&& hs@[h].from == indices@[h]
                    &&& hs@[h].face == g
                    &&& hs@[h].next == if k + 1 == counts@[g] {
                        base(counts@, g)
                    } else {
                        h + 1
                    }
                },
            forall|h: int|
                0 <= h < hs@.len() ==> {
                    let he = #[trigger] hs@[h];
                    &&& he.from == indices@[h]
                    &&& he.next < hs@.len()
                    &&& he.face < f
                    &&& he.twin == 0
                    &&& he.edge == 0
                },
            forall|x: int, y: int|
                0 <= x < hs@.len() && 0 <= y < hs@.len() && (#[trigger] hs@[x]).next == (
                #[trigger] hs@[y]).next ==> x == y,
        decreases counts@.len() - f,
    {
        let c = counts[f];
        let b = hs.len();
        proof {
            lemma_base_monotonic(counts@, f + 1, counts@.len() as int);
            assert(base(counts@, f + 1) == b + c);
        }
        faces.push(Face { he: b, attr: () });
        let mut k: usize = 0;
        while k < c
            invariant
                k <= c,
                m == indices@.len(),
                f < counts@.len(),
                c == counts@[f as int],
                c >= 1,
                b == base(counts@, f as int),
                b + c <= indices@.len(),
                hs@.len() == b + k,
                forall|g: int, j: int|
                    0 <= g < f && 0 <= j < counts@[g] ==> {
                        let h = #[trigger] corner(counts@, g, j);
                        &&& 0 <= h < hs@.len()
                        &&& hs@[h].from == indices@[h]
                        &&& hs@[h].face == g
                        &&& hs@[h].next == if j + 1 == counts@[g] {
                            base(counts@, g)
                        } else {
                            h + 1
                        }
                    },
                forall|j: int|
                    0 <= j < k ==> {
                        let h = #[trigger] corner(counts@, f as int, j);
                        &&& hs@[h].from == indices@[h]
                        &&& hs@[h].face == f
                        &&& hs@[h].next == if j + 1 == c {
                            b as int
                        } else {
                            h + 1
                        }
                    },
                forall|h: int|
                    0 <= h < hs@.len() ==> {
                        let he = #[trigger] hs@[h];
                        &&& he.from == indices@[h]
                        &&& he.next < b + c
                        &&& he.face <= f
                        &&& he.twin == 0
                        &&& he.edge == 0
                    },
                forall|h: int| 0 <= h < b ==> (#[trigger] hs@[h]).next < b,
                forall|h: int|
                    b <= h < b + k ==> (#[trigger] hs@[h]).next == if h + 1 == b + c {
                        b as int
                    } else {
                        h + 1
                    },
                forall|x: int, y: int|
                    0 <= x < hs@.len() && 0 <= y < hs@.len() && (#[trigger] hs@[x]).next == (
                    #[trigger] hs@[y]).next ==> x == y,
            decreases c - k,
        {
            let next = if k + 1 == c {
                b
            } else {
                b + k + 1
            };
            hs.push(HalfEdge { from: indices[b + k], twin: 0, next, edge: 0, face: f });
            k += 1;
        }
        f += 1;
    }
    (hs, faces)
}

/// The directed vertex pair that a half-edge spans: its origin, and the
/// origin of its successor.
pub type Span = (usize, usize);

/// The pair in the other direction.
pub open spec fn reversed(s: Span) -> Span {
    (s.1, s.0)
}

/// The pair that each half-edge spans.
pub open spec fn spans_of(hs: Seq<HalfEdge>) -> Seq<Span> {
    Seq::new(hs.len(), |h: int| (hs[h].from, hs[hs[h].next as int].from))
}

/// Half-edges are linked in the order of their indices.  A half-edge looks
/// for one that is registered for the reverse of its pair; if there is none
/// it registers itself for its own pair, in place of any that was registered
/// for that pair before.  This is the half-edge registered for `key` once the
/// half-edges below `upto` are linked.
pub open spec fn registered(spans: Seq<Span>, upto: int, key: Span) -> Option<int>
    decreases upto,
{
    if upto <= 0 {
        None
    } else if spans[upto - 1] == key && registered(spans, upto - 1, reversed(key)) is None {
        Some(upto - 1)
    } else {
        registered(spans, upto - 1, key)
    }
}

/// The half-edge that `h` finds registered for the reverse of its pair when
/// it is linked.
pub open spec fn partner(spans: Seq<Span>, h: int) -> Option<int> {
    registered(spans, h, reversed(spans[h]))
}

/// The last half-edge below `upto` whose partner is `h`, or 0 where none is.
pub open spec fn last_suitor(spans: Seq<Span>, h: int, upto: int) -> int
    decreases upto,
{
    if upto <= 0 || upto <= h + 1 {
        0
    } else if partner(spans, upto - 1) == Some(h) {
        upto - 1
    } else {
        last_suitor(spans, h, upto - 1)
    }
}

/// The number of half-edges below `upto` that found no partner.  Each of
/// them opened a new edge.
pub open spec fn edges_opened(spans: Seq<Span>, upto: int) -> int
    decreases upto,
{
    if upto <= 0 {
        0
    } else if partner(spans, upto - 1) is None {
        edges_opened(spans, upto - 1) + 1
    } else {
        edges_opened(spans, upto - 1)
    }
}

/// The twin of half-edge `h` once all are linked: its partner if it found
/// one, else the last half-edge that found `h`, else 0.
pub open spec fn twin_of(spans: Seq<Span>, h: int) -> int {
    match partner(spans, h) {
        Some(m) => m,
        None => last_suitor(spans, h, spans.len() as int),
    }
}

/// The edge of half-edge `h` once all are linked: the edge of its partner if
/// it found one, else the edge that it opened.
pub open spec fn edge_of(spans: Seq<Span>, h: int) -> int {
    match partner(spans, h) {
        Some(m) => edges_opened(spans, m),
        None => edges_opened(spans, h),
    }
}

/// A registered half-edge lies below the bound, spans the key, and found no
/// partner itself.
pub proof fn lemma_registered(spans: Seq<Span>, upto: int, key: Span)
    requires
        upto <= spans.len(),
    ensures
        registered(spans, upto, key) matches Some(m) ==> 0 <= m < upto && spans[m] == key && partner(
            spans,
            m,
        ) is None,
    decreases upto,
{
    if upto > 0 {
        lemma_registered(spans, upto - 1, key);
    }
}

/// Later bounds have opened no fewer edges, and one more past a half-edge
/// that found no partner.
pub proof fn lemma_edges_opened(spans: Seq<Span>, lo: int, hi: int)
    requires
        0 <= lo <= hi,
    ensures
        0 <= edges_opened(spans, lo) <= edges_opened(spans, hi) <= hi,
        lo < hi && partner(spans, lo) is None ==> edges_opened(spans, lo) < edges_opened(spans, hi),
    decreases hi,
{
    if hi > 0 {
        if lo < hi {
            lemma_edges_opened(spans, lo, hi - 1);
        } else {
            lemma_edges_opened(spans, 0, hi - 1);
        }
    }
}

/// The key under which a pair is kept in the lookup table.
pub open spec fn span_key(s: Span) -> u128 {
    (s.0 as u128 * 0x1_0000_0000_0000_0000 + s.1 as u128) as u128
}

/// Different pairs have different keys.
pub proof fn lemma_span_key_injective(s: Span, t: Span)
    ensures
        span_key(s) == span_key(t) ==> s == t,
{
    assert(s.0 as u128 * 0x1_0000_0000_0000_0000 + s.1 as u128 <= u128::MAX);
    assert(t.0 as u128 * 0x1_0000_0000_0000_0000 + t.1 as u128 <= u128::MAX);
}

fn key_of(from: usize, to: usize) -> (key: u128)
    ensures
        key == span_key((from, to)),
{
    from as u128 * 0x1_0000_0000_0000_0000 + to as u128
}

/// Link every half-edge to its twin and its edge, in the order of their
/// indices, and return the edges.
fn link(hs: &mut Vec<HalfEdge>) -> (edges: Vec<Edge<()>>)
    requires
        forall|h: int|
            0 <= h < old(hs)@.len() ==> {
                let he = #[trigger] old(hs)@[h];
                &&& he.next < old(hs)@.len()
                &&& he.twin == 0
                &&& he.edge == 0
            },
    ensures
        final(hs)@.len() == old(hs)@.len(),
        spans_of(final(hs)@) == spans_of(old(hs)@),
        edges@.len() == edges_opened(spans_of(old(hs)@), old(hs)@.len() as int),
        forall|e: int| 0 <= e < edges@.len() ==> (#[trigger] edges@[e]).he < final(hs)@.len(),
        forall|h: int|
            0 <= h < final(hs)@.len() ==> {
                let he = #[trigger] final(hs)@[h];
                &&& he.from == old(hs)@[h].from
                &&& he.next == old(hs)@[h].next
                &&& he.face == old(hs)@[h].face
                &&& he.twin == twin_of(spans_of(old(hs)@), h)
                &&& he.edge == edge_of(spans_of(old(hs)@), h)
                &&& he.twin < final(hs)@.len()
                &&& he.edge < edges@.len()
                &&& (partner(spans_of(old(hs)@), h) is None ==> edges@[he.edge as int].he == h)
            },
{
    let ghost init = hs@;
    let ghost spans = spans_of(init);
    let n = hs.len();
    let mut edges: Vec<Edge<()>> = Vec::new();
    let mut table: HashMap<u128, usize> = HashMap::new();
    let mut p: usize = 0;
    while p < n
        invariant
            p <= n,
            n == hs@.len(),
            n == init.len(),
            spans == spans_of(init),
            forall|h: int| 0 <= h < n ==> (#[trigger] init[h]).next < n,
            forall|h: int|
                0 <= h < n ==> {
                    let he = #[trigger] hs@[h];
                    &&& he.from == init[h].from
                    &&& he.next == init[h].next
                    &&& he.face == init[h].face
                },
            forall|h: int| p <= h < n ==> (#[trigger] hs@[h]).twin == 0 && hs@[h].edge == 0,
            forall|h: int|
                0 <= h < p ==> {
                    let he = #[trigger] hs@[h];
                    &&& he.edge == edge_of(spans, h)
                    &&& he.twin == match partner(spans, h) {
                        Some(m) => m,
                        None => last_suitor(spans, h, p as int),
                    }
                    &&& he.twin < n
                    &&& he.edge < edges@.len()
                    &&& (partner(spans, h) is None ==> edges@[he.edge as int].he == h)
                },
            edges@.len() == edges_opened(spans, p as int),
            forall|e: int| 0 <= e < edges@.len() ==> (#[trigger] edges@[e]).he < p,
            forall|s: Span|
                table@.contains_key(#[trigger] span_key(s)) <==> registered(spans, p as int, s) is Some,
            forall|s: Span|
                table@.contains_key(#[trigger] span_key(s)) ==> registered(spans, p as int, s) == Some(
                    table@[span_key(s)] as int,
                ),
        decreases n - p,
    {
        let curr = hs[p];
        let from = curr.from;
        let to = hs[curr.next].from;
        assert(spans[p as int] == (from, to));
        let ghost before = hs@;
        let ghost table_before = table@;
        proof {
            lemma_registered(spans, p as int, (to, from));
            lemma_edges_opened(spans, 0, p as int);
        }
        let key = key_of(to, from);
        let found = table.get(&key);
        match found {
            Some(opp_ref) => {
                let opp = *opp_ref;
                assert(partner(spans, p as int) == Some(opp as int));
                proof {
                    lemma_edges_opened(spans, opp as int, p as int);
                }
                let e_id = hs[opp].edge;
                let mut mine = hs[p];
                mine.twin = opp;
                mine.edge = e_id;
                hs.set(p, mine);
                let mut theirs = hs[opp];
                theirs.twin = p;
                hs.set(opp, theirs);
                proof {
                    assert forall|s: Span|
                        table@.contains_key(#[trigger] span_key(s)) <==> registered(
                            spans,
                            p + 1,
                            s,
                        ) is Some by {}
                    assert forall|h: int| 0 <= h < p + 1 implies {
                        let he = #[trigger] hs@[h];
                        &&& he.edge == edge_of(spans, h)
                        &&& he.twin == match partner(spans, h) {
                            Some(m) => m,
                            None => last_suitor(spans, h, p + 1),
                        }
                        &&& he.twin < n
                        &&& he.edge < edges@.len()
                        &&& (partner(spans, h) is None ==> edges@[he.edge as int].he == h)
                    } by {
                        if h < p && h != opp {
                            assert(hs@[h] == before[h]);
                        }
                    }
                }
            },
            None => {
                assert(partner(spans, p as int) is None);
                let e_id = edges.len();
                edges.push(Edge { he: p, attr: () });
                let mut mine = hs[p];
                mine.edge = e_id;
                hs.set(p, mine);
                let own = key_of(from, to);
                table.insert(own, p);
                proof {
                    assert forall|s: Span|
                        table@.contains_key(#[trigger] span_key(s)) <==> registered(
                            spans,
                            p + 1,
                            s,
                        ) is Some by {
                        lemma_span_key_injective(s, (from, to));
                    }
                    assert forall|s: Span|
                        table@.contains_key(#[trigger] span_key(s)) implies registered(
                        spans,
                        p + 1,
                        s,
                    ) == Some(table@[span_key(s)] as int) by {
                        lemma_span_key_injective(s, (from, to));
                    }
                    assert forall|h: int| 0 <= h < p + 1 implies {
                        let he = #[trigger] hs@[h];
                        &&& he.edge == edge_of(spans, h)
                        &&& he.twin == match partner(spans, h) {
                            Some(m) => m,
                            None => last_suitor(spans, h, p + 1),
                        }
                        &&& he.twin < n
                        &&& he.edge < edges@.len()
                        &&& (partner(spans, h) is None ==> edges@[he.edge as int].he == h)
                    } by {
                        if h < p {
                            assert(hs@[h] == before[h]);
                        }
                    }
                }
            },
        }
        p += 1;
    }
    assert(spans_of(hs@) =~= spans);
    edges
}

/// The last corner below `upto` that names vertex `v`, or 0 where none does.
pub open spec fn last_leaving(indices: Seq<usize>, v: usize, upto: int) -> int
    decreases upto,
{
    if upto <= 0 {
        0
    } else if indices[upto - 1] == v {
        upto - 1
    } else {
        last_leaving(indices, v, upto - 1)
    }
}

/// For each of `n` vertices, the last half-edge that leaves it, or 0.
fn outgoing(n: usize, indices: &[usize]) -> (out: Vec<usize>)
    requires
        forall|i: int| 0 <= i < indices@.len() ==> #[trigger] indices@[i] < n,
    ensures
        out@.len() == n,
        forall|v: usize| v < n ==> #[trigger] out@[v as int] == last_leaving(indices@, v, indices@.len() as int),
        forall|v: usize| v < n && indices@.len() > 0 ==> #[trigger] out@[v as int] < indices@.len(),
{
    let mut out: Vec<usize> = vec![0; n];
    let mut h: usize = 0;
    while h < indices.len()
        invariant
            h <= indices@.len(),
            out@.len() == n,
            forall|i: int| 0 <= i < indices@.len() ==> #[trigger] indices@[i] < n,
            forall|v: usize| v < n ==> #[trigger] out@[v as int] == last_leaving(indices@, v, h as int),
            forall|v: usize| v < n && indices@.len() > 0 ==> #[trigger] out@[v as int] < indices@.len(),
        decreases indices@.len() - h,
    {
        out.set(indices[h], h);
        h += 1;
    }
    out
}

/// Wrap each payload in a vertex with the outgoing half-edge given for it.
fn make_vertices<VA>(positions: Vec<VA>, out: &Vec<usize>) -> (vertices: Vec<Vertex<VA>>)
    requires
        out@.len() == positions@.len(),
    ensures
        vertices@.len() == positions@.len(),
        forall|v: int|
            0 <= v < vertices@.len() ==> (#[trigger] vertices@[v]).attr == positions@[v]
                && vertices@[v].he_out == out@[v],
{
    let n = positions.len();
    let mut rest = positions;
    let mut stack: Vec<VA> = Vec::new();
    while rest.len() > 0
        invariant
            rest@.len() + stack@.len() == n,
            n == positions@.len(),
            rest@ == positions@.take(rest@.len() as int),
            forall|i: int| 0 <= i < stack@.len() ==> #[trigger] stack@[i] == positions@[n - 1 - i],
        decreases rest@.len(),
    {
        let p = rest.pop().unwrap();
        stack.push(p);
    }
    let mut vertices: Vec<Vertex<VA>> = Vec::new();
    while stack.len() > 0
        invariant
            vertices@.len() + stack@.len() == n,
            n == positions@.len(),
            out@.len() == n,
            forall|i: int| 0 <= i < stack@.len() ==> #[trigger] stack@[i] == positions@[n - 1 - i],
            forall|v: int|
                0 <= v < vertices@.len() ==> (#[trigger] vertices@[v]).attr == positions@[v]
                    && vertices@[v].he_out == out@[v],
        decreases stack@.len(),
    {
        let p = stack.pop().unwrap();
        let v = vertices.len();
        vertices.push(Vertex { he_out: out[v], attr: p });
    }
    vertices
}

impl<VA> Mesh<VA, (), ()> {
    /// The pair of vertices that each half-edge spans.
    pub open spec fn spans(&self) -> Seq<Span> {
        spans_of(self.halfedges@)
    }

    /// There is a vertex for each payload, and each vertex points to the last
    /// half-edge that leaves it, or to half-edge 0 where none does.
    pub open spec fn vertices_built(&self, positions: Seq<VA>, indices: Seq<usize>) -> bool {
        &&& self.vertices@.len() == positions.len()
        &&& forall|v: int|
            0 <= v < positions.len() ==> (#[trigger] self.vertices@[v]).attr == positions[v]
                && self.vertices@[v].he_out == last_leaving(indices, v as usize, indices.len() as int)
    }

    /// There is a face for each polygon, and each face points to the
    /// half-edge of its polygon's first corner.
    pub open spec fn faces_built(&self, counts: Seq<usize>) -> bool {
        &&& self.faces@.len() == counts.len()
        &&& forall|f: int| 0 <= f < counts.len() ==> (#[trigger] self.faces@[f]).he == base(counts, f)
    }

    /// Half-edges are paired into twins and edges as `twin_of` and `edge_of`
    /// say, and each edge points to the half-edge that opened it.
    pub open spec fn is_linked(&self) -> bool {
        &&& forall|h: int|
            0 <= h < self.halfedges@.len() ==> {
                let he = #[trigger] self.halfedges@[h];
                &&& he.twin == twin_of(self.spans(), h)
                &&& he.edge == edge_of(self.spans(), h)
                &&& (partner(self.spans(), h) is None ==> self.edges@[he.edge as int].he == h)
            }
        &&& self.edges@.len() == edges_opened(self.spans(), self.halfedges@.len() as int)
    }

    /// The mesh is what `from_vertices_and_faces` builds from these arrays:
    /// a vertex for each payload, a face for each polygon, and a half-edge
    /// for each corner, laid out polygon by polygon and linked in that order.
    pub open spec fn is_build_of(&self, positions: Seq<VA>, counts: Seq<usize>, indices: Seq<usize>) -> bool {
        &&& self.vertices_built(positions, indices)
        &&& self.faces_built(counts)
        &&& laid_out(self.halfedges@, counts, indices)
        &&& self.is_linked()
    }

    /// Build a half-edge mesh from vertex payloads and polygons.
    ///
    /// Polygon `f` has `face_vertex_counts[f]` corners; its corners follow
    /// those of the polygons before it in `indices`, and each names a vertex
    /// by its index in `positions`.  Arrays that do not fit together are
    /// refused with `Error::Parse`.  Whether the polygons form a manifold is
    /// not looked at: a half-edge with no opposite keeps twin 0.
    pub fn from_vertices_and_faces(
        positions: Vec<VA>,
        face_vertex_counts: &[usize],
        indices: &[usize],
    ) -> (built: Result<Self, Error>)
        ensures
            built is Ok <==> raw_arrays_valid(positions@.len(), face_vertex_counts@, indices@),
            built matches Ok(mesh) ==> {
                &&& mesh.is_build_of(positions@, face_vertex_counts@, indices@)
                &&& mesh.next_injective()
                &&& (indices@.len() > 0 || positions@.len() == 0 ==> mesh.valid_handles())
            },
            built matches Err(e) ==> e is Parse,
    {
        if !check_raw_arrays(positions.len(), face_vertex_counts, indices) {
            return Err(Error::Parse("raw mesh arrays do not fit together".to_owned()));
        }
        let (mut halfedges, faces) = lay_out(face_vertex_counts, indices);
        let ghost laid = halfedges@;
        let edges = link(&mut halfedges);
        assert forall|a: usize, b: usize|
            a < halfedges@.len() && b < halfedges@.len() && #[trigger] halfedges@[a as int].next
                == #[trigger] halfedges@[b as int].next implies a == b by {
            assert(laid[a as int].next == laid[b as int].next);
        }
        let out = outgoing(positions.len(), indices);
        let vertices = make_vertices(positions, &out);
        let mesh = Mesh { vertices, halfedges, edges, faces };
        proof {
            assert(laid_out(mesh.halfedges@, face_vertex_counts@, indices@)) by {
                assert forall|f: int, k: int|
                    0 <= f < face_vertex_counts@.len() && 0 <= k < face_vertex_counts@[f] implies {
                    let h = #[trigger] corner(face_vertex_counts@, f, k);
                    &&& 0 <= h < mesh.halfedges@.len()
                    &&& mesh.halfedges@[h].from == indices@[h]
                    &&& mesh.halfedges@[h].face == f
                    &&& mesh.halfedges@[h].next == if k + 1 == face_vertex_counts@[f] {
                        base(face_vertex_counts@, f)
                    } else {
                        h + 1
                    }
                } by {
                    let h = corner(face_vertex_counts@, f, k);
                    assert(0 <= h < laid.len());
                    assert(mesh.halfedges@[h].from == laid[h].from);
                }
            }
        }
        Ok(mesh)
    }
}

impl<VA, EA, FA> Mesh<VA, EA, FA> {
    /// The corners of face `f`: the origins of the half-edges around it.
    pub open spec fn face_corners(&self, f: usize) -> Seq<usize> {
        Seq::new(self.face_cycle(f).len(), |i: int| self.origin(self.face_cycle(f)[i]))
    }

    /// The corners of the faces below `upto`, face after face.
    pub open spec fn corners_below(&self, upto: int) -> Seq<usize>
        decreases upto,
    {
        if upto <= 0 {
            Seq::empty()
        } else {
            self.corners_below(upto - 1) + self.face_corners((upto - 1) as usize)
        }
    }

    /// Return the corners of face `f_id`: the origins of the half-edges
    /// around it, in their order.
    pub fn face_polygon(&self, f_id: usize) -> (polygon: Vec<usize>)
        requires
            self.valid_handles(),
            f_id < self.faces@.len(),
        ensures
            polygon@ == self.face_corners(f_id),
            forall|i: int| 0 <= i < polygon@.len() ==> #[trigger] polygon@[i] < self.vertices@.len(),
    {
        let around = self.face_halfedges(f_id);
        let mut polygon: Vec<usize> = Vec::new();
        let mut i: usize = 0;
        while i < around.len()
            invariant
                i <= around@.len(),
                self.valid_handles(),
                around@ == self.face_cycle(f_id),
                forall|k: int| 0 <= k < around@.len() ==> #[trigger] around@[k] < self.halfedges@.len(),
                polygon@ == self.face_corners(f_id).take(i as int),
                forall|k: int| 0 <= k < polygon@.len() ==> #[trigger] polygon@[k] < self.vertices@.len(),
            decreases around@.len() - i,
        {
            polygon.push(self.halfedges[around[i]].from);
            i += 1;
            assert(polygon@ =~= self.face_corners(f_id).take(i as int));
        }
        assert(polygon@ =~= self.face_corners(f_id));
        polygon
    }

    /// The three vertices that `face_vertices` returns are the corners of
    /// the face where stepping around it comes back after three steps.
    pub proof fn lemma_triangle_corners(&self, f: usize)
        requires
            self.valid_handles(),
            f < self.faces@.len(),
            self.halfedges@.len() >= 3,
            self.next(self.faces@[f as int].he) != self.faces@[f as int].he,
            self.next(self.next(self.faces@[f as int].he)) != self.faces@[f as int].he,
            self.next(self.next(self.next(self.faces@[f as int].he))) == self.faces@[f as int].he,
        ensures
            self.face_corners(f) == seq![
                self.origin(self.faces@[f as int].he),
                self.origin(self.next(self.faces@[f as int].he)),
                self.origin(self.next(self.next(self.faces@[f as int].he))),
            ],
    {
        let h0 = self.faces@[f as int].he;
        let h1 = self.next(h0);
        let h2 = self.next(h1);
        let step = self.next_map();
        assert(step(h0) == h1 && step(h1) == h2 && step(h2) == h0);
        assert(self.face_cycle(f) =~= seq![h0, h1, h2]) by {
            reveal_with_fuel(crate::mesh::orbit::walk, 4);
        }
        assert(self.face_corners(f) =~= seq![self.origin(h0), self.origin(h1), self.origin(h2)]);
    }

    /// Return the number of corners of each face.
    pub fn face_vertex_counts(&self) -> (counts: Vec<usize>)
        requires
            self.valid_handles(),
        ensures
            counts@.len() == self.faces@.len(),
            forall|f: usize| f < self.faces@.len() ==> #[trigger] counts@[f as int] == self.face_cycle(f).len(),
    {
        let mut counts: Vec<usize> = Vec::new();
        let mut f: usize = 0;
        while f < self.faces.len()
            invariant
                f <= self.faces@.len(),
                self.valid_handles(),
                counts@.len() == f,
                forall|g: usize| g < f ==> #[trigger] counts@[g as int] == self.face_cycle(g).len(),
            decreases self.faces@.len() - f,
        {
            let around = self.face_halfedges(f);
            counts.push(around.len());
            f += 1;
        }
        counts
    }

    /// Return the corners of all faces in one run, face after face.
    pub fn face_vertex_indices(&self) -> (indices: Vec<usize>)
        requires
            self.valid_handles(),
        ensures
            indices@ == self.corners_below(self.faces@.len() as int),
    {
        let mut indices: Vec<usize> = Vec::new();
        let mut f: usize = 0;
        while f < self.faces.len()
            invariant
                f <= self.faces@.len(),
                self.valid_handles(),
                indices@ == self.corners_below(f as int),
            decreases self.faces@.len() - f,
        {
            let around = self.face_halfedges(f);
            let ghost before = indices@;
            let mut i: usize = 0;
            while i < around.len()
                invariant
                    i <= around@.len(),
                    f < self.faces@.len(),
                    around@ == self.face_cycle(f),
                    forall|k: int| 0 <= k < around@.len() ==> #[trigger] around@[k] < self.halfedges@.len(),
                    indices@ == before + self.face_corners(f).take(i as int),
                decreases around@.len() - i,
            {
                indices.push(self.halfedges[around[i]].from);
                i += 1;
                assert(indices@ =~= before + self.face_corners(f).take(i as int));
            }
            assert(self.face_corners(f).take(i as int) =~= self.face_corners(f));
            f += 1;
        }
        indices
    }
}

} // verus!
