//! What holds of a mesh that was built from raw arrays.

use vstd::prelude::*;
use crate::mesh::half_edge::Mesh;
use crate::mesh::orbit::walk;
use crate::mesh::raw::{
    base, corner, edge_of, edges_opened, laid_out, last_leaving, last_suitor, lemma_base_monotonic,
    lemma_edges_opened, lemma_registered,
    partner, raw_arrays_valid, registered, reversed, twin_of, Span,
};

verus! {

/// Where no two half-edges span the same pair, a pair is registered exactly
/// when a half-edge below the bound spans it and found no partner.
pub proof fn lemma_registered_unique(spans: Seq<Span>, upto: int, m: int)
    requires
        spans.no_duplicates(),
        0 <= m < upto <= spans.len(),
        partner(spans, m) is None,
    ensures
        registered(spans, upto, spans[m]) == Some(m),
    decreases upto,
{
    if upto - 1 != m {
        lemma_registered_unique(spans, upto - 1, m);
    }
}

/// The last suitor of `a` is `b` where `b` found `a` and no later half-edge did.
pub proof fn lemma_last_suitor(spans: Seq<Span>, a: int, b: int, upto: int)
    requires
        0 <= a < b < upto <= spans.len(),
        partner(spans, b) == Some(a),
        forall|h: int| b < h < upto ==> partner(spans, h) != Some(a),
    ensures
        last_suitor(spans, a, upto) == b,
    decreases upto,
{
    if upto - 1 != b {
        lemma_last_suitor(spans, a, b, upto - 1);
    }
}

/// No half-edge found `a`: its last suitor is 0.
pub proof fn lemma_no_suitor(spans: Seq<Span>, a: int, upto: int)
    requires
        0 <= upto <= spans.len(),
        forall|h: int| 0 <= h < upto ==> partner(spans, h) != Some(a),
    ensures
        last_suitor(spans, a, upto) == 0,
    decreases upto,
{
    if upto > 0 {
        lemma_no_suitor(spans, a, upto - 1);
    }
}

/// On an oriented manifold, opposite half-edges are twins and share an edge.
///
/// Where no two half-edges span the same directed pair of vertices, two
/// half-edges that span a pair in opposite directions are made each other's
/// twin, and both get the edge that the first of them opened.
pub proof fn lemma_opposites_are_twins(spans: Seq<Span>, a: int, b: int)
    requires
        spans.no_duplicates(),
        0 <= a < b < spans.len(),
        spans[a] == reversed(spans[b]),
    ensures
        twin_of(spans, a) == b,
        twin_of(spans, b) == a,
        edge_of(spans, a) == edge_of(spans, b),
        edge_of(spans, a) == edges_opened(spans, a),
{
    lemma_registered_unique_opener(spans, a, b);
    lemma_registered_unique(spans, b, a);
    assert(partner(spans, b) == Some(a));
    assert forall|h: int| b < h < spans.len() implies partner(spans, h) != Some(a) by {
        lemma_registered(spans, h, reversed(spans[h]));
        if partner(spans, h) == Some(a) {
            assert(spans[a] == reversed(spans[h]));
            assert(spans[h] == spans[b]);
        }
    }
    lemma_last_suitor(spans, a, b, spans.len() as int);
}

/// On an oriented manifold, a half-edge with no opposite keeps twin 0 and
/// has an edge of its own.
pub proof fn lemma_unmatched_has_twin_zero(spans: Seq<Span>, a: int)
    requires
        spans.no_duplicates(),
        0 <= a < spans.len(),
        forall|h: int| 0 <= h < spans.len() && h != a ==> spans[h] != reversed(spans[a]),
    ensures
        twin_of(spans, a) == 0,
        edge_of(spans, a) == edges_opened(spans, a),
{
    lemma_registered(spans, a, reversed(spans[a]));
    assert forall|h: int| 0 <= h < spans.len() implies partner(spans, h) != Some(a) by {
        lemma_registered(spans, h, reversed(spans[h]));
        if partner(spans, h) == Some(a) {
            assert(spans[a] == reversed(spans[h]));
            assert(h != a);
        }
    }
    lemma_no_suitor(spans, a, spans.len() as int);
}

/// Another half-edge spans the pair of `h` in the other direction.
pub open spec fn has_opposite(spans: Seq<Span>, h: int) -> bool {
    exists|o: int| 0 <= o < spans.len() && o != h && #[trigger] spans[o] == reversed(spans[h])
}

/// Every half-edge has exactly one opposite: no two half-edges span the same
/// directed pair, and each has another that spans its pair reversed.
pub open spec fn closed_oriented(spans: Seq<Span>) -> bool {
    &&& spans.no_duplicates()
    &&& forall|h: int| 0 <= h < spans.len() ==> #[trigger] has_opposite(spans, h)
}

/// A mesh built from a closed, consistently oriented manifold is well-formed,
/// and each half-edge shares its edge with its twin.
pub proof fn lemma_closed_surface_wf<VA>(mesh: &Mesh<VA, (), ()>)
    requires
        mesh.is_linked(),
        mesh.valid_handles(),
        mesh.next_injective(),
        closed_oriented(mesh.spans()),
    ensures
        mesh.wf(),
        mesh.head_to_tail(),
        forall|h: usize|
            h < mesh.halfedges@.len() ==> mesh.halfedges@[#[trigger] mesh.twin(h) as int].edge
                == mesh.halfedges@[h as int].edge,
        forall|h: usize| h < mesh.halfedges@.len() ==> #[trigger] mesh.twin(h) != h,
{
    assert forall|h: usize| h < mesh.halfedges@.len() implies mesh.twin(#[trigger] mesh.twin(h)) == h
        && mesh.halfedges@[mesh.twin(h) as int].edge == mesh.halfedges@[h as int].edge && mesh.twin(h)
        != h by {
        lemma_linked_twin(mesh, h);
    }
    assert forall|h: usize| h < mesh.halfedges@.len() implies mesh.origin(#[trigger] mesh.next(h))
        == mesh.dest(h) by {
        lemma_linked_twin(mesh, h);
        assert(mesh.halfedges@[h as int].next < mesh.halfedges@.len());
        assert(mesh.halfedges@[mesh.twin(h) as int].next < mesh.halfedges@.len());
    }
}

/// Different half-edges that found no partner opened different edges.
pub proof fn lemma_openers_differ(spans: Seq<Span>, a: int, b: int)
    requires
        0 <= a < b < spans.len(),
        partner(spans, a) is None,
    ensures
        edges_opened(spans, a) < edges_opened(spans, b),
{
    lemma_edges_opened(spans, a, b);
}

/// An edge of a closed, consistently oriented manifold has exactly two
/// half-edges, which are twins: half-edges with one edge are the same
/// half-edge or each other's twin.
pub proof fn lemma_edge_has_two_half_edges<VA>(mesh: &Mesh<VA, (), ()>, a: usize, b: usize)
    requires
        mesh.is_linked(),
        closed_oriented(mesh.spans()),
        a < mesh.halfedges@.len(),
        b < mesh.halfedges@.len(),
        mesh.halfedges@[a as int].edge == mesh.halfedges@[b as int].edge,
    ensures
        a == b || mesh.twin(a) == b,
{
    let spans = mesh.spans();
    lemma_linked_twin(mesh, a);
    lemma_linked_twin(mesh, b);
    // the half-edge of each pair with the lower handle opened the edge of the pair
    let first_a = if (a as int) < mesh.twin(a) {
        a as int
    } else {
        mesh.twin(a) as int
    };
    let first_b = if (b as int) < mesh.twin(b) {
        b as int
    } else {
        mesh.twin(b) as int
    };
    let last_a = if first_a == a {
        mesh.twin(a) as int
    } else {
        a as int
    };
    let last_b = if first_b == b {
        mesh.twin(b) as int
    } else {
        b as int
    };
    lemma_opposites_are_twins(spans, first_a, last_a);
    lemma_opposites_are_twins(spans, first_b, last_b);
    assert(mesh.halfedges@[a as int].edge == edge_of(spans, a as int));
    assert(mesh.halfedges@[b as int].edge == edge_of(spans, b as int));
    assert(edges_opened(spans, first_a) == edges_opened(spans, first_b));
    assert(partner(spans, first_a) is None) by {
        lemma_registered_unique_opener(spans, first_a, last_a);
    }
    assert(partner(spans, first_b) is None) by {
        lemma_registered_unique_opener(spans, first_b, last_b);
    }
    if first_a < first_b {
        lemma_openers_differ(spans, first_a, first_b);
    } else if first_b < first_a {
        lemma_openers_differ(spans, first_b, first_a);
    }
}

/// The first of two opposite half-edges of an oriented manifold found no partner.
pub proof fn lemma_registered_unique_opener(spans: Seq<Span>, a: int, b: int)
    requires
        spans.no_duplicates(),
        0 <= a < b < spans.len(),
        spans[a] == reversed(spans[b]),
    ensures
        partner(spans, a) is None,
{
    lemma_registered(spans, a, reversed(spans[a]));
    if partner(spans, a) is Some {
        let m = partner(spans, a).unwrap();
        assert(spans[m] == spans[b]);
    }
}

/// The last corner that names a vertex names that vertex, where any corner does.
pub proof fn lemma_last_leaving(indices: Seq<usize>, v: usize, upto: int, witness: int)
    requires
        0 <= witness < upto <= indices.len(),
        indices[witness] == v,
    ensures
        witness <= last_leaving(indices, v, upto) < upto,
        indices[last_leaving(indices, v, upto)] == v,
    decreases upto,
{
    if indices[upto - 1] != v {
        lemma_last_leaving(indices, v, upto - 1, witness);
    }
}

/// In a built mesh the outgoing half-edge of a vertex leaves that vertex,
/// where any corner names the vertex.
pub proof fn lemma_he_out_leaves<VA>(
    mesh: &Mesh<VA, (), ()>,
    positions: Seq<VA>,
    counts: Seq<usize>,
    indices: Seq<usize>,
    v: usize,
    h: int,
)
    requires
        mesh.vertices_built(positions, indices),
        laid_out(mesh.halfedges@, counts, indices),
        base(counts, counts.len() as int) == indices.len(),
        v < positions.len(),
        0 <= h < indices.len(),
        indices[h] == v,
    ensures
        mesh.vertices@[v as int].he_out < mesh.halfedges@.len(),
        mesh.origin(mesh.vertices@[v as int].he_out) == v,
{
    lemma_last_leaving(indices, v, indices.len() as int, h);
    let out = last_leaving(indices, v, indices.len() as int);
    assert(mesh.vertices@[v as int].he_out == out);
    lemma_laid_out_origin(mesh.halfedges@, counts, indices, counts.len() as int, out);
}

/// In laid-out half-edges every half-edge leaves the vertex that its corner names.
pub proof fn lemma_laid_out_origin(
    hs: Seq<crate::mesh::half_edge::HalfEdge>,
    counts: Seq<usize>,
    indices: Seq<usize>,
    upto: int,
    h: int,
)
    requires
        laid_out(hs, counts, indices),
        0 <= upto <= counts.len(),
        0 <= h < base(counts, upto),
    ensures
        0 <= h < hs.len(),
        hs[h].from == indices[h],
    decreases upto,
{
    if h < base(counts, upto - 1) {
        lemma_laid_out_origin(hs, counts, indices, upto - 1, h);
    } else {
        let k = h - base(counts, upto - 1);
        assert(corner(counts, upto - 1, k) == h);
    }
}

/// In a linked mesh over a closed, consistently oriented manifold, the twin
/// of a half-edge is its opposite, whose twin it is, and both have one edge.
pub proof fn lemma_linked_twin<VA>(mesh: &Mesh<VA, (), ()>, h: usize)
    requires
        mesh.is_linked(),
        closed_oriented(mesh.spans()),
        h < mesh.halfedges@.len(),
    ensures
        mesh.twin(h) < mesh.halfedges@.len(),
        mesh.twin(h) != h,
        mesh.twin(mesh.twin(h)) == h,
        mesh.halfedges@[mesh.twin(h) as int].edge == mesh.halfedges@[h as int].edge,
        mesh.spans()[mesh.twin(h) as int] == reversed(mesh.spans()[h as int]),
{
    let spans = mesh.spans();
    assert(has_opposite(spans, h as int));
    let o = choose|o: int| 0 <= o < spans.len() && o != h && #[trigger] spans[o] == reversed(spans[h as int]);
    let he = mesh.halfedges@[h as int];
    let other = mesh.halfedges@[o];
    assert(he.twin == twin_of(spans, h as int) && he.edge == edge_of(spans, h as int));
    assert(other.twin == twin_of(spans, o) && other.edge == edge_of(spans, o));
    if o < h {
        lemma_opposites_are_twins(spans, o, h as int);
    } else {
        lemma_opposites_are_twins(spans, h as int, o);
    }
}

/// Stepping around a built face from corner `k` on meets the half-edges of
/// the remaining corners of its polygon.
pub proof fn lemma_built_face_walk<VA>(
    mesh: &Mesh<VA, (), ()>,
    counts: Seq<usize>,
    indices: Seq<usize>,
    f: int,
    k: int,
    fuel: nat,
)
    requires
        laid_out(mesh.halfedges@, counts, indices),
        0 <= f < counts.len(),
        0 <= k < counts[f],
        fuel >= counts[f] - k,
    ensures
        walk(mesh.next_map(), base(counts, f) as usize, corner(counts, f, k) as usize, fuel) == Seq::new(
            (counts[f] - k) as nat,
            |j: int| (base(counts, f) + k + j) as usize,
        ),
    decreases counts[f] - k,
{
    let step = mesh.next_map();
    assert(mesh.halfedges.len() == mesh.halfedges@.len());
    assert(0 <= corner(counts, f, k) < mesh.halfedges@.len());
    assert(0 <= corner(counts, f, 0) < mesh.halfedges@.len());
    assert(corner(counts, f, 0) == base(counts, f));
    let start = base(counts, f) as usize;
    let cur = corner(counts, f, k) as usize;
    let expected = Seq::new((counts[f] - k) as nat, |j: int| (base(counts, f) + k + j) as usize);
    assert(step(cur) == mesh.halfedges@[cur as int].next);
    if k + 1 == counts[f] {
        assert(step(cur) == start);
        assert(walk(step, start, cur, fuel) =~= expected);
    } else {
        assert(step(cur) == (cur + 1) as usize);
        assert(step(cur) != start);
        assert(corner(counts, f, k + 1) == cur + 1);
        lemma_built_face_walk(mesh, counts, indices, f, k + 1, (fuel - 1) as nat);
        assert(walk(step, start, cur, fuel) =~= expected);
    }
}

/// What is exported from a built mesh is what it was built from: the number
/// of corners of each face is that of its polygon, and the corners of all
/// faces in one run are the index array.
pub proof fn lemma_export_restores_arrays<VA>(
    mesh: &Mesh<VA, (), ()>,
    positions: Seq<VA>,
    counts: Seq<usize>,
    indices: Seq<usize>,
)
    requires
        mesh.is_build_of(positions, counts, indices),
        raw_arrays_valid(positions.len(), counts, indices),
    ensures
        forall|f: usize| f < counts.len() ==> #[trigger] mesh.face_cycle(f).len() == counts[f as int],
        mesh.corners_below(counts.len() as int) == indices,
{
    assert forall|f: usize| f < counts.len() implies #[trigger] mesh.face_cycle(f).len() == counts[f as int] by {
        lemma_built_face(mesh, counts, indices, f as int);
    }
    lemma_built_corners(mesh, counts, indices, counts.len() as int);
    assert(indices.take(indices.len() as int) =~= indices);
}

/// The cycle of a built face is the run of half-edges of its polygon, and
/// its corners are those of the polygon.
pub proof fn lemma_built_face<VA>(mesh: &Mesh<VA, (), ()>, counts: Seq<usize>, indices: Seq<usize>, f: int)
    requires
        mesh.faces_built(counts),
        laid_out(mesh.halfedges@, counts, indices),
        forall|g: int| 0 <= g < counts.len() ==> #[trigger] counts[g] >= 1,
        base(counts, counts.len() as int) == indices.len(),
        0 <= f < counts.len(),
    ensures
        mesh.face_cycle(f as usize) == Seq::new(counts[f] as nat, |j: int| (base(counts, f) + j) as usize),
        mesh.face_corners(f as usize) == indices.subrange(base(counts, f), base(counts, f + 1)),
        0 <= base(counts, f) <= base(counts, f + 1) <= indices.len(),
{
    lemma_base_monotonic(counts, 0, f);
    lemma_base_monotonic(counts, f + 1, counts.len() as int);
    assert(corner(counts, f, 0) == base(counts, f));
    lemma_built_face_walk(mesh, counts, indices, f, 0, mesh.halfedges@.len());
    let run = Seq::new(counts[f] as nat, |j: int| (base(counts, f) + j) as usize);
    assert(mesh.halfedges.len() == mesh.halfedges@.len());
    assert(mesh.faces@[f].he == base(counts, f));
    assert(mesh.face_cycle(f as usize) =~= run);
    assert forall|j: int| 0 <= j < counts[f] implies mesh.origin(#[trigger] run[j]) == indices[base(counts, f) + j] by {
        let h = corner(counts, f, j);
        assert(0 <= h < mesh.halfedges@.len());
        assert(mesh.halfedges@[h].from == indices[h]);
    }
    assert(mesh.face_corners(f as usize) =~= indices.subrange(base(counts, f), base(counts, f + 1)));
}

/// The corners of the first `upto` built faces are the first corners of the
/// index array.
pub proof fn lemma_built_corners<VA>(
    mesh: &Mesh<VA, (), ()>,
    counts: Seq<usize>,
    indices: Seq<usize>,
    upto: int,
)
    requires
        mesh.faces_built(counts),
        laid_out(mesh.halfedges@, counts, indices),
        forall|g: int| 0 <= g < counts.len() ==> #[trigger] counts[g] >= 1,
        base(counts, counts.len() as int) == indices.len(),
        0 <= upto <= counts.len(),
    ensures
        0 <= base(counts, upto) <= indices.len(),
        mesh.corners_below(upto) == indices.take(base(counts, upto)),
    decreases upto,
{
    lemma_base_monotonic(counts, upto, counts.len() as int);
    lemma_base_monotonic(counts, 0, upto);
    if upto > 0 {
        lemma_built_corners(mesh, counts, indices, upto - 1);
        lemma_built_face(mesh, counts, indices, upto - 1);
        assert(mesh.corners_below(upto) =~= indices.take(base(counts, upto)));
    } else {
        assert(mesh.corners_below(upto) =~= indices.take(base(counts, upto)));
    }
}

} // verus!
