//! Subdivision rules that move the vertices of a mesh in passes.
//!
//! Each pass reads the mesh as it was when the function was called and the
//! points of the passes before it.  The vertices are overwritten only when
//! every new payload is known.  The topology is left as it is.

use vstd::prelude::*;
use crate::mesh::half_edge::{Mesh, Vertex, NO_FACE};

verus! {

/// Mesh subdivision algorithms.
pub struct Subdivision;

/// `value` is what `face_point` may give for the corners of face `f`.
pub open spec fn is_face_point<VA, EA, FA, FP: Fn(&Mesh<VA, EA, FA>, &Vec<usize>) -> VA>(
    mesh: &Mesh<VA, EA, FA>,
    face_point: FP,
    f: usize,
    value: VA,
) -> bool {
    exists|corners: Vec<usize>|
        corners@ == mesh.face_corners(f) && #[trigger] call_ensures(face_point, (mesh, &corners), value)
}

/// `value` is what `edge_point` may give for edge `e`: for its two ends, the
/// faces on its two sides, and the face points.
pub open spec fn is_edge_point<
    VA,
    EA,
    FA,
    EP: Fn(&Mesh<VA, EA, FA>, usize, usize, usize, usize, &Vec<VA>) -> VA,
>(mesh: &Mesh<VA, EA, FA>, edge_point: EP, face_points: Seq<VA>, e: usize, value: VA) -> bool {
    let he = mesh.edges@[e as int].he;
    let tw = mesh.twin(he);
    exists|fps: Vec<VA>|
        fps@ == face_points && #[trigger] call_ensures(
            edge_point,
            (
                mesh,
                mesh.origin(he),
                mesh.origin(tw),
                mesh.halfedges@[he as int].face,
                mesh.halfedges@[tw as int].face,
                &fps,
            ),
            value,
        )
}

/// `value` is what `vertex_point` may give for vertex `v`: for the faces and
/// the edges met around it, the face points and the edge points.
pub open spec fn is_vertex_point<
    VA,
    EA,
    FA,
    VP: Fn(&Mesh<VA, EA, FA>, usize, &Vec<usize>, &Vec<usize>, &Vec<VA>, &Vec<VA>) -> VA,
>(
    mesh: &Mesh<VA, EA, FA>,
    vertex_point: VP,
    face_points: Seq<VA>,
    edge_points: Seq<VA>,
    v: usize,
    value: VA,
) -> bool {
    exists|faces: Vec<usize>, edges: Vec<usize>, fps: Vec<VA>, eps: Vec<VA>|
        faces@ == mesh.ring_faces(v) && edges@ == mesh.ring_edges(v) && fps@ == face_points && eps@
            == edge_points && #[trigger] call_ensures(
            vertex_point,
            (mesh, v, &faces, &edges, &fps, &eps),
            value,
        )
}

/// `after` has the topology of `before`, and its vertices keep their
/// outgoing half-edges.
pub open spec fn same_topology<VA, EA, FA>(before: &Mesh<VA, EA, FA>, after: &Mesh<VA, EA, FA>) -> bool {
    &&& after.halfedges@ == before.halfedges@
    &&& after.edges@ == before.edges@
    &&& after.faces@ == before.faces@
    &&& after.vertices@.len() == before.vertices@.len()
    &&& forall|v: int|
        0 <= v < before.vertices@.len() ==> (#[trigger] after.vertices@[v]).he_out
            == before.vertices@[v].he_out
}

/// The apexes on the two sides of edge `e` where it is an interior edge: one
/// that has a face on either side, and not the same face on both.
pub open spec fn wings<VA, EA, FA>(mesh: &Mesh<VA, EA, FA>, e: usize) -> Option<(usize, usize)> {
    let he = mesh.edges@[e as int].he;
    let tw = mesh.twin(he);
    let f0 = mesh.halfedges@[he as int].face;
    let f1 = mesh.halfedges@[tw as int].face;
    if f0 != f1 && f0 != NO_FACE && f1 != NO_FACE {
        Some((mesh.diamond(e)[2], mesh.diamond(e)[3]))
    } else {
        None
    }
}

/// `value` is what `edge_point` may give for edge `e`: for its two ends and,
/// where it is an interior edge, the apexes on its two sides.
pub open spec fn is_loop_edge_point<
    VA,
    EA,
    FA,
    EP: Fn(&Mesh<VA, EA, FA>, usize, usize, Option<(usize, usize)>) -> VA,
>(mesh: &Mesh<VA, EA, FA>, edge_point: EP, e: usize, value: VA) -> bool {
    call_ensures(edge_point, (mesh, mesh.diamond(e)[0], mesh.diamond(e)[1], wings(mesh, e)), value)
}

/// `value` is what `vertex_point` may give for vertex `v`: for the edges met
/// around it, and the edge points.
pub open spec fn is_loop_vertex_point<
    VA,
    EA,
    FA,
    VP: Fn(&Mesh<VA, EA, FA>, usize, &Vec<usize>, &Vec<VA>) -> VA,
>(mesh: &Mesh<VA, EA, FA>, vertex_point: VP, edge_points: Seq<VA>, v: usize, value: VA) -> bool {
    exists|edges: Vec<usize>, eps: Vec<VA>|
        edges@ == mesh.ring_edges(v) && eps@ == edge_points && #[trigger] call_ensures(
            vertex_point,
            (mesh, v, &edges, &eps),
            value,
        )
}

impl Subdivision {
    /// Perform Catmull-Clark subdivision on the mesh.
    ///
    /// First `face_point` gives a point for each face from its corners.
    /// Then `edge_point` gives a point for each edge from its two ends, the
    /// faces on its two sides and the face points.  Then `vertex_point`
    /// gives each vertex its new payload from the faces and edges met around
    /// it, the face points and the edge points.  Only then are the payloads
    /// stored.  No vertex, edge or face is added.
    pub fn catmull_clark<
        VA,
        EA,
        FA,
        FP: Fn(&Mesh<VA, EA, FA>, &Vec<usize>) -> VA,
        EP: Fn(&Mesh<VA, EA, FA>, usize, usize, usize, usize, &Vec<VA>) -> VA,
        VP: Fn(&Mesh<VA, EA, FA>, usize, &Vec<usize>, &Vec<usize>, &Vec<VA>, &Vec<VA>) -> VA,
    >(mesh: &mut Mesh<VA, EA, FA>, face_point: FP, edge_point: EP, vertex_point: VP)
        requires
            old(mesh).valid_handles(),
            forall|f: usize, corners: &Vec<usize>|
                f < old(mesh).faces@.len() && corners@ == old(mesh).face_corners(f) ==> call_requires(
                    face_point,
                    (old(mesh), corners),
                ),
            forall|a: usize, b: usize, f: usize, g: usize, fps: &Vec<VA>|
                fps@.len() == old(mesh).faces@.len() ==> call_requires(
                    edge_point,
                    (old(mesh), a, b, f, g, fps),
                ),
            forall|v: usize, faces: &Vec<usize>, edges: &Vec<usize>, fps: &Vec<VA>, eps: &Vec<VA>|
                v < old(mesh).vertices@.len() && faces@ == old(mesh).ring_faces(v) && edges@ == old(
                    mesh,
                ).ring_edges(v) && fps@.len() == old(mesh).faces@.len() && eps@.len() == old(
                    mesh,
                ).edges@.len() ==> call_requires(vertex_point, (old(mesh), v, faces, edges, fps, eps)),
        ensures
            same_topology(old(mesh), final(mesh)),
            final(mesh).valid_handles(),
            exists|face_points: Seq<VA>, edge_points: Seq<VA>|
                {
                    &&& face_points.len() == old(mesh).faces@.len()
                    &&& edge_points.len() == old(mesh).edges@.len()
                    &&& forall|f: usize|
                        f < face_points.len() ==> is_face_point(
                            old(mesh),
                            face_point,
                            f,
                            #[trigger] face_points[f as int],
                        )
                    &&& forall|e: usize|
                        e < edge_points.len() ==> is_edge_point(
                            old(mesh),
                            edge_point,
                            face_points,
                            e,
                            #[trigger] edge_points[e as int],
                        )
                    &&& forall|v: usize|
                        v < old(mesh).vertices@.len() ==> #[trigger] is_vertex_point(
                            old(mesh),
                            vertex_point,
                            face_points,
                            edge_points,
                            v,
                            final(mesh).vertices@[v as int].attr,
                        )
                },
    {
        let ghost start = *mesh;
        let nf = mesh.faces.len();
        let ne = mesh.edges.len();
        let nv = mesh.vertices.len();
        let mut face_points: Vec<VA> = Vec::new();
        let mut f: usize = 0;
        while f < nf
            invariant
                f <= nf,
                nf == mesh.faces@.len(),
                *mesh == start,
                mesh.valid_handles(),
                forall|f: usize, corners: &Vec<usize>|
                    f < start.faces@.len() && corners@ == start.face_corners(f) ==> call_requires(
                        face_point,
                        (&start, corners),
                    ),
                face_points@.len() == f,
                forall|g: usize|
                    g < f ==> is_face_point(&start, face_point, g, #[trigger] face_points@[g as int]),
            decreases nf - f,
        {
            let corners = mesh.face_polygon(f);
            let point = face_point(mesh, &corners);
            assert(is_face_point(&start, face_point, f, point));
            face_points.push(point);
            f += 1;
        }
        let mut edge_points: Vec<VA> = Vec::new();
        let mut e: usize = 0;
        while e < ne
            invariant
                e <= ne,
                ne == mesh.edges@.len(),
                *mesh == start,
                mesh.valid_handles(),
                forall|a: usize, b: usize, f: usize, g: usize, fps: &Vec<VA>|
                    fps@.len() == start.faces@.len() ==> call_requires(edge_point, (&start, a, b, f, g, fps)),
                face_points@.len() == start.faces@.len(),
                edge_points@.len() == e,
                forall|g: usize|
                    g < e ==> is_edge_point(
                        &start,
                        edge_point,
                        face_points@,
                        g,
                        #[trigger] edge_points@[g as int],
                    ),
            decreases ne - e,
        {
            let he = mesh.edges[e].he;
            let tw = mesh.halfedges[he].twin;
            let point = edge_point(
                mesh,
                mesh.halfedges[he].from,
                mesh.halfedges[tw].from,
                mesh.halfedges[he].face,
                mesh.halfedges[tw].face,
                &face_points,
            );
            assert(is_edge_point(&start, edge_point, face_points@, e, point));
            edge_points.push(point);
            e += 1;
        }
        let mut moved: Vec<Vertex<VA>> = Vec::new();
        let mut v: usize = 0;
        while v < nv
            invariant
                v <= nv,
                nv == mesh.vertices@.len(),
                *mesh == start,
                mesh.valid_handles(),
                forall|v: usize, faces: &Vec<usize>, edges: &Vec<usize>, fps: &Vec<VA>, eps: &Vec<VA>|
                    v < start.vertices@.len() && faces@ == start.ring_faces(v) && edges@ == start.ring_edges(v)
                        && fps@.len() == start.faces@.len() && eps@.len() == start.edges@.len()
                        ==> call_requires(vertex_point, (&start, v, faces, edges, fps, eps)),
                face_points@.len() == start.faces@.len(),
                edge_points@.len() == start.edges@.len(),
                moved@.len() == v,
                forall|w: usize|
                    w < v ==> (#[trigger] moved@[w as int]).he_out == start.vertices@[w as int].he_out
                        && is_vertex_point(
                        &start,
                        vertex_point,
                        face_points@,
                        edge_points@,
                        w,
                        moved@[w as int].attr,
                    ),
            decreases nv - v,
        {
            let faces = mesh.vertex_incident_faces(v);
            let edges = mesh.vertex_incident_edges(v);
            let point = vertex_point(mesh, v, &faces, &edges, &face_points, &edge_points);
            assert(is_vertex_point(&start, vertex_point, face_points@, edge_points@, v, point));
            moved.push(Vertex { he_out: mesh.vertices[v].he_out, attr: point });
            v += 1;
        }
        mesh.vertices = moved;
        proof {
            let fps = face_points@;
            let eps = edge_points@;
            assert forall|w: usize| w < start.vertices@.len() implies #[trigger] is_vertex_point(
                &start,
                vertex_point,
                fps,
                eps,
                w,
                mesh.vertices@[w as int].attr,
            ) by {
                assert(moved@[w as int].he_out == start.vertices@[w as int].he_out);
            }
        }
    }

    /// Perform Loop subdivision on the mesh.
    ///
    /// First `edge_point` gives a point for each edge from its two ends and,
    /// where it is an interior edge, the apexes on its two sides.  Then
    /// `vertex_point` gives each vertex its new payload from the edges met
    /// around it and the edge points.  Only then are the payloads stored.
    /// No vertex, edge or face is added.
    pub fn loop_subdivision<
        VA,
        EA,
        FA,
        EP: Fn(&Mesh<VA, EA, FA>, usize, usize, Option<(usize, usize)>) -> VA,
        VP: Fn(&Mesh<VA, EA, FA>, usize, &Vec<usize>, &Vec<VA>) -> VA,
    >(mesh: &mut Mesh<VA, EA, FA>, edge_point: EP, vertex_point: VP)
        requires
            old(mesh).valid_handles(),
            forall|e: usize|
                e < old(mesh).edges@.len() ==> call_requires(
                    edge_point,
                    (old(mesh), old(mesh).diamond(e)[0], old(mesh).diamond(e)[1], #[trigger] wings(old(mesh), e)),
                ),
            forall|v: usize, edges: &Vec<usize>, eps: &Vec<VA>|
                v < old(mesh).vertices@.len() && edges@ == old(mesh).ring_edges(v) && eps@.len() == old(
                    mesh,
                ).edges@.len() ==> call_requires(vertex_point, (old(mesh), v, edges, eps)),
        ensures
            same_topology(old(mesh), final(mesh)),
            final(mesh).valid_handles(),
            exists|edge_points: Seq<VA>|
                {
                    &&& edge_points.len() == old(mesh).edges@.len()
                    &&& forall|e: usize|
                        e < edge_points.len() ==> is_loop_edge_point(
                            old(mesh),
                            edge_point,
                            e,
                            #[trigger] edge_points[e as int],
                        )
                    &&& forall|v: usize|
                        v < old(mesh).vertices@.len() ==> #[trigger] is_loop_vertex_point(
                            old(mesh),
                            vertex_point,
                            edge_points,
                            v,
                            final(mesh).vertices@[v as int].attr,
                        )
                },
    {
        let ghost start = *mesh;
        let ne = mesh.edges.len();
        let nv = mesh.vertices.len();
        let mut edge_points: Vec<VA> = Vec::new();
        let mut e: usize = 0;
        while e < ne
            invariant
                e <= ne,
                ne == mesh.edges@.len(),
                *mesh == start,
                mesh.valid_handles(),
                forall|e: usize|
                    e < start.edges@.len() ==> call_requires(
                        edge_point,
                        (&start, start.diamond(e)[0], start.diamond(e)[1], #[trigger] wings(&start, e)),
                    ),
                edge_points@.len() == e,
                forall|g: usize|
                    g < e ==> is_loop_edge_point(&start, edge_point, g, #[trigger] edge_points@[g as int]),
            decreases ne - e,
        {
            let around = mesh.edge_diamond(e);
            let he = mesh.edges[e].he;
            let f0 = mesh.halfedges[he].face;
            let f1 = mesh.halfedges[mesh.halfedges[he].twin].face;
            let apexes = if f0 != f1 && f0 != NO_FACE && f1 != NO_FACE {
                Some((around[2], around[3]))
            } else {
                None
            };
            assert(apexes == wings(&start, e));
            let point = edge_point(mesh, around[0], around[1], apexes);
            edge_points.push(point);
            e += 1;
        }
        let mut moved: Vec<Vertex<VA>> = Vec::new();
        let mut v: usize = 0;
        while v < nv
            invariant
                v <= nv,
                nv == mesh.vertices@.len(),
                *mesh == start,
                mesh.valid_handles(),
                forall|v: usize, edges: &Vec<usize>, eps: &Vec<VA>|
                    v < start.vertices@.len() && edges@ == start.ring_edges(v) && eps@.len()
                        == start.edges@.len() ==> call_requires(vertex_point, (&start, v, edges, eps)),
                edge_points@.len() == start.edges@.len(),
                moved@.len() == v,
                forall|w: usize|
                    w < v ==> (#[trigger] moved@[w as int]).he_out == start.vertices@[w as int].he_out
                        && is_loop_vertex_point(
                        &start,
                        vertex_point,
                        edge_points@,
                        w,
                        moved@[w as int].attr,
                    ),
            decreases nv - v,
        {
            let edges = mesh.vertex_incident_edges(v);
            let point = vertex_point(mesh, v, &edges, &edge_points);
            assert(is_loop_vertex_point(&start, vertex_point, edge_points@, v, point));
            moved.push(Vertex { he_out: mesh.vertices[v].he_out, attr: point });
            v += 1;
        }
        mesh.vertices = moved;
        proof {
            let eps = edge_points@;
            assert forall|w: usize| w < start.vertices@.len() implies #[trigger] is_loop_vertex_point(
                &start,
                vertex_point,
                eps,
                w,
                mesh.vertices@[w as int].attr,
            ) by {
                assert(moved@[w as int].he_out == start.vertices@[w as int].he_out);
            }
        }
    }
}

} // verus!
