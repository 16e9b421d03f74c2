//! Half-edge mesh data structure.

use vstd::prelude::*;
use crate::mesh::orbit::{cycle, injective_below, lemma_cycle_closes, lemma_walk_below, walk};

verus! {

/// Handle of a vertex: its index in `Mesh::vertices`.
pub type VertexId = usize;

/// Handle of a half-edge: its index in `Mesh::halfedges`.
pub type HalfEdgeId = usize;

/// Handle of an edge: its index in `Mesh::edges`.
pub type EdgeId = usize;

/// Handle of a face: its index in `Mesh::faces`.
pub type FaceId = usize;

/// The face handle of a half-edge that borders no face.
pub const NO_FACE: FaceId = usize::MAX;

/// Generic half-edge mesh.
#[derive(Debug)]
pub struct Mesh<VA = (), EA = (), FA = ()> {
    pub vertices: Vec<Vertex<VA>>,
    pub halfedges: Vec<HalfEdge>,
    pub edges: Vec<Edge<EA>>,
    pub faces: Vec<Face<FA>>,
}

/// Vertex with outgoing half-edge and attribute.
#[derive(Debug)]
pub struct Vertex<VA> {
    pub he_out: HalfEdgeId,
    pub attr: VA,
}

/// Half-edge linking topology.
#[derive(Clone, Copy, Debug)]
pub struct HalfEdge {
    pub from: VertexId,
    pub twin: HalfEdgeId,
    pub next: HalfEdgeId,
    pub edge: EdgeId,
    pub face: FaceId,
}

/// Edge with representative half-edge and attribute.
#[derive(Debug)]
pub struct Edge<EA> {
    pub he: HalfEdgeId,
    pub attr: EA,
}

/// Face with one half-edge and attribute.
#[derive(Debug)]
pub struct Face<FA> {
    pub he: HalfEdgeId,
    pub attr: FA,
}

impl<VA, EA, FA> Default for Mesh<VA, EA, FA> {
    /// The empty mesh.
    fn default() -> (mesh: Self)
        ensures
            mesh.vertices@.len() == 0,
            mesh.halfedges@.len() == 0,
            mesh.edges@.len() == 0,
            mesh.faces@.len() == 0,
    {
        Mesh { vertices: Vec::new(), halfedges: Vec::new(), edges: Vec::new(), faces: Vec::new() }
    }
}

impl<VA, EA, FA> Mesh<VA, EA, FA> {
    /// Origin vertex of half-edge `h`.
    pub open spec fn origin(&self, h: usize) -> usize {
        self.halfedges@[h as int].from
    }

    /// Opposite half-edge of `h`.
    pub open spec fn twin(&self, h: usize) -> usize {
        self.halfedges@[h as int].twin
    }

    /// Successor of `h` around its face.
    pub open spec fn next(&self, h: usize) -> usize {
        self.halfedges@[h as int].next
    }

    /// The vertex that `h` leads to: the origin of its twin.
    pub open spec fn dest(&self, h: usize) -> usize {
        self.origin(self.twin(h))
    }

    /// The half-edge that follows `h` in the rotation around its origin.
    pub open spec fn rot(&self, h: usize) -> usize {
        self.next(self.twin(h))
    }

    /// Every handle stored in the mesh points into the array it refers to.
    /// A half-edge may carry `NO_FACE` in place of a face handle.
    pub open spec fn valid_handles(&self) -> bool {
        &&& forall|v: int|
            0 <= v < self.vertices@.len() ==> (#[trigger] self.vertices@[v]).he_out
                < self.halfedges@.len()
        &&& forall|e: int|
            0 <= e < self.edges@.len() ==> (#[trigger] self.edges@[e]).he < self.halfedges@.len()
        &&& forall|f: int|
            0 <= f < self.faces@.len() ==> (#[trigger] self.faces@[f]).he < self.halfedges@.len()
        &&& forall|h: int|
            0 <= h < self.halfedges@.len() ==> {
                let he = #[trigger] self.halfedges@[h];
                &&& he.from < self.vertices@.len()
                &&& he.twin < self.halfedges@.len()
                &&& he.next < self.halfedges@.len()
                &&& he.edge < self.edges@.len()
                &&& (he.face < self.faces@.len() || he.face == NO_FACE)
            }
    }

    /// The rotation around a vertex, as a map on half-edge handles.
    pub open spec fn rot_map(&self) -> spec_fn(usize) -> usize {
        |h: usize| self.rot(h)
    }

    /// The twin of the twin of every half-edge is the half-edge itself.
    pub open spec fn twin_involutive(&self) -> bool {
        forall|h: usize| h < self.halfedges@.len() ==> self.twin(#[trigger] self.twin(h)) == h
    }

    /// No two half-edges have the same successor.
    pub open spec fn next_injective(&self) -> bool {
        forall|a: usize, b: usize|
            a < self.halfedges@.len() && b < self.halfedges@.len() && #[trigger] self.next(a)
                == #[trigger] self.next(b) ==> a == b
    }

    /// The successor around a face, as a map on half-edge handles.
    pub open spec fn next_map(&self) -> spec_fn(usize) -> usize {
        |h: usize| self.next(h)
    }

    /// The handles are valid, `twin` undoes itself, and no two half-edges have
    /// the same successor.  Rotating around a vertex and stepping around a
    /// face then both come back to where they started.
    pub open spec fn wf(&self) -> bool {
        &&& self.valid_handles()
        &&& self.twin_involutive()
        &&& self.next_injective()
    }

    /// The outgoing half-edges met by rotating around vertex `v`, from its
    /// `he_out` on, until the rotation is back at `he_out`.  Where it never
    /// comes back, the ring stops after as many half-edges as the mesh has.
    pub open spec fn ring(&self, v: usize) -> Seq<usize> {
        cycle(self.rot_map(), self.vertices@[v as int].he_out, self.halfedges@.len())
    }

    /// The half-edges met by stepping around face `f`, from its `he` on,
    /// until the successor is `he` again.  Where it never is, the cycle stops
    /// after as many half-edges as the mesh has.
    pub open spec fn face_cycle(&self, f: usize) -> Seq<usize> {
        cycle(self.next_map(), self.faces@[f as int].he, self.halfedges@.len())
    }

    /// With valid handles and no shared successors, the successor is a map of
    /// the half-edges into themselves that sends no two to the same one.
    pub proof fn lemma_next_injective(&self)
        requires
            self.valid_handles(),
            self.next_injective(),
        ensures
            injective_below(self.next_map(), self.halfedges@.len()),
    {
        let step = self.next_map();
        let n = self.halfedges@.len();
        assert forall|a: usize| a < n implies #[trigger] step(a) < n by {
            assert(self.halfedges@[a as int].next < n);
        }
        assert forall|a: usize, b: usize| a < n && b < n && #[trigger] step(a) == #[trigger] step(
            b,
        ) implies a == b by {
            assert(self.next(a) == self.next(b));
        }
    }

    /// In a well-formed mesh the rotation is a map of the half-edges into
    /// themselves that sends no two to the same one.
    pub proof fn lemma_rot_injective(&self)
        requires
            self.wf(),
        ensures
            injective_below(self.rot_map(), self.halfedges@.len()),
    {
        let step = self.rot_map();
        let n = self.halfedges@.len();
        assert forall|a: usize| a < n implies #[trigger] step(a) < n by {
            assert(self.halfedges@[a as int].twin < n);
            assert(self.halfedges@[self.twin(a) as int].next < n);
        }
        assert forall|a: usize, b: usize| a < n && b < n && #[trigger] step(a) == #[trigger] step(
            b,
        ) implies a == b by {
            assert(self.halfedges@[a as int].twin < n);
            assert(self.halfedges@[b as int].twin < n);
            assert(self.next(self.twin(a)) == self.next(self.twin(b)));
            assert(self.twin(a) == self.twin(b));
            assert(self.twin(self.twin(a)) == a);
            assert(self.twin(self.twin(b)) == b);
        }
    }

    /// The ring of a vertex holds half-edges of the mesh, at most as many as
    /// the mesh has.
    pub proof fn lemma_ring_in_range(&self, v: usize)
        requires
            self.valid_handles(),
            v < self.vertices@.len(),
        ensures
            self.ring(v).len() <= self.halfedges@.len(),
            forall|i: int|
                0 <= i < self.ring(v).len() ==> #[trigger] self.ring(v)[i] < self.halfedges@.len(),
    {
        let step = self.rot_map();
        let n = self.halfedges@.len();
        assert forall|a: usize| a < n implies #[trigger] step(a) < n by {
            assert(self.halfedges@[a as int].twin < n);
            assert(self.halfedges@[self.twin(a) as int].next < n);
        }
        assert(self.vertices@[v as int].he_out < n);
        lemma_walk_below(step, n, self.vertices@[v as int].he_out, self.vertices@[v as int].he_out, n);
    }

    /// In a well-formed mesh the ring of a vertex closes: the rotation of its
    /// last half-edge is the vertex's `he_out`, with which it begins, and no
    /// half-edge is met twice.
    pub proof fn lemma_ring_closes(&self, v: usize)
        requires
            self.wf(),
            v < self.vertices@.len(),
        ensures
            1 <= self.ring(v).len() <= self.halfedges@.len(),
            self.ring(v)[0] == self.vertices@[v as int].he_out,
            self.rot(self.ring(v).last()) == self.vertices@[v as int].he_out,
            self.ring(v).no_duplicates(),
    {
        self.lemma_rot_injective();
        assert(self.vertices@[v as int].he_out < self.halfedges@.len());
        lemma_cycle_closes(self.rot_map(), self.halfedges@.len(), self.vertices@[v as int].he_out);
    }

    /// Where no two half-edges share a successor, the cycle of a face
    /// closes: the successor of its last half-edge is the face's `he`, with
    /// which it begins, and no half-edge is met twice.
    pub proof fn lemma_face_cycle_closes(&self, f: usize)
        requires
            self.valid_handles(),
            self.next_injective(),
            f < self.faces@.len(),
        ensures
            1 <= self.face_cycle(f).len() <= self.halfedges@.len(),
            self.face_cycle(f)[0] == self.faces@[f as int].he,
            self.next(self.face_cycle(f).last()) == self.faces@[f as int].he,
            self.face_cycle(f).no_duplicates(),
    {
        self.lemma_next_injective();
        assert(self.faces@[f as int].he < self.halfedges@.len());
        lemma_cycle_closes(self.next_map(), self.halfedges@.len(), self.faces@[f as int].he);
    }

    /// Half-edges run head to tail: the successor of a half-edge leaves the
    /// vertex that the half-edge leads to.
    pub open spec fn head_to_tail(&self) -> bool {
        forall|h: usize|
            h < self.halfedges@.len() ==> self.origin(#[trigger] self.next(h)) == self.dest(h)
    }

    /// Every half-edge that the walk by rotation meets leaves the vertex
    /// that the walk started from.
    proof fn lemma_walk_leaves(&self, start: usize, cur: usize, fuel: nat, i: int)
        requires
            self.wf(),
            self.head_to_tail(),
            cur < self.halfedges@.len(),
            0 <= i < walk(self.rot_map(), start, cur, fuel).len(),
        ensures
            self.origin(walk(self.rot_map(), start, cur, fuel)[i]) == self.origin(cur),
        decreases fuel,
    {
        if i > 0 {
            let t = self.twin(cur);
            assert(self.halfedges@[cur as int].twin < self.halfedges@.len());
            assert(self.halfedges@[t as int].next < self.halfedges@.len());
            assert(self.origin(self.next(t)) == self.dest(t));
            assert(self.twin(t) == cur);
            self.lemma_walk_leaves(start, self.rot(cur), (fuel - 1) as nat, i - 1);
        }
    }

    /// In a well-formed mesh whose half-edges run head to tail, every
    /// half-edge of the ring of a vertex leaves that vertex, if its `he_out`
    /// does, and leads to the vertex that its successor leaves: rotating by
    /// `twin` then `next` meets the same neighbours as by `next` alone.
    pub proof fn lemma_ring_leaves_vertex(&self, v: usize)
        requires
            self.wf(),
            self.head_to_tail(),
            v < self.vertices@.len(),
            self.origin(self.vertices@[v as int].he_out) == v,
        ensures
            forall|i: int| 0 <= i < self.ring(v).len() ==> self.origin(#[trigger] self.ring(v)[i]) == v,
            self.ring_neighbors(v) == self.ring_ends(v),
    {
        let start = self.vertices@[v as int].he_out;
        assert(start < self.halfedges@.len());
        assert forall|i: int| 0 <= i < self.ring(v).len() implies self.origin(#[trigger] self.ring(v)[i])
            == v by {
            self.lemma_walk_leaves(start, start, self.halfedges@.len(), i);
        }
        self.lemma_ring_in_range(v);
        assert(self.ring_neighbors(v) =~= self.ring_ends(v));
    }

    /// Create an empty mesh.
    pub fn new() -> (mesh: Self)
        ensures
            mesh.vertices@.len() == 0,
            mesh.halfedges@.len() == 0,
            mesh.edges@.len() == 0,
            mesh.faces@.len() == 0,
            mesh.valid_handles(),
    {
        Mesh { vertices: Vec::new(), halfedges: Vec::new(), edges: Vec::new(), faces: Vec::new() }
    }

    /// Return the vertex indices of the face with the given face index (assumes triangle).
    pub fn face_vertices(&self, f_id: usize) -> (vs: [usize; 3])
        requires
            self.valid_handles(),
            f_id < self.faces@.len(),
        ensures
            vs@ == seq![
                self.origin(self.faces@[f_id as int].he),
                self.origin(self.next(self.faces@[f_id as int].he)),
                self.origin(self.next(self.next(self.faces@[f_id as int].he))),
            ],
            forall|i: int| 0 <= i < 3 ==> #[trigger] vs@[i] < self.vertices@.len(),
    {
        let h0 = self.faces[f_id].he;
        let h1 = self.halfedges[h0].next;
        let h2 = self.halfedges[h1].next;
        [self.halfedges[h0].from, self.halfedges[h1].from, self.halfedges[h2].from]
    }

    /// Tell whether every handle stored in the mesh is in range.
    pub fn has_valid_handles(&self) -> (ok: bool)
        ensures
            ok == self.valid_handles(),
    {
        let nv = self.vertices.len();
        let nh = self.halfedges.len();
        let ne = self.edges.len();
        let nf = self.faces.len();
        let mut i: usize = 0;
        while i < nv
            invariant
                i <= nv,
                nv == self.vertices@.len(),
                nh == self.halfedges@.len(),
                forall|v: int| 0 <= v < i ==> (#[trigger] self.vertices@[v]).he_out < nh,
            decreases nv - i,
        {
            if self.vertices[i].he_out >= nh {
                return false;
            }
            i += 1;
        }
        i = 0;
        while i < ne
            invariant
                i <= ne,
                ne == self.edges@.len(),
                nh == self.halfedges@.len(),
                forall|e: int| 0 <= e < i ==> (#[trigger] self.edges@[e]).he < nh,
            decreases ne - i,
        {
            if self.edges[i].he >= nh {
                return false;
            }
            i += 1;
        }
        i = 0;
        while i < nf
            invariant
                i <= nf,
                nf == self.faces@.len(),
                nh == self.halfedges@.len(),
                forall|f: int| 0 <= f < i ==> (#[trigger] self.faces@[f]).he < nh,
            decreases nf - i,
        {
            if self.faces[i].he >= nh {
                return false;
            }
            i += 1;
        }
        i = 0;
        while i < nh
            invariant
                i <= nh,
                nv == self.vertices@.len(),
                nh == self.halfedges@.len(),
                ne == self.edges@.len(),
                nf == self.faces@.len(),
                forall|h: int|
                    0 <= h < i ==> {
                        let he = #[trigger] self.halfedges@[h];
                        &&& he.from < nv
                        &&& he.twin < nh
                        &&& he.next < nh
                        &&& he.edge < ne
                        &&& (he.face < nf || he.face == NO_FACE)
                    },
            decreases nh - i,
        {
            let he = &self.halfedges[i];
            if he.from >= nv || he.twin >= nh || he.next >= nh || he.edge >= ne || (he.face >= nf
                && he.face != NO_FACE) {
                return false;
            }
            i += 1;
        }
        true
    }

    /// Tell whether the mesh is well-formed: whether its handles are valid,
    /// `twin` undoes itself and no two half-edges share a successor.
    pub fn is_well_formed(&self) -> (ok: bool)
        ensures
            ok == self.wf(),
    {
        if !self.has_valid_handles() {
            return false;
        }
        let nh = self.halfedges.len();
        let mut i: usize = 0;
        while i < nh
            invariant
                i <= nh,
                nh == self.halfedges@.len(),
                self.valid_handles(),
                forall|h: usize| h < i ==> self.twin(#[trigger] self.twin(h)) == h,
            decreases nh - i,
        {
            let t = self.halfedges[i].twin;
            if self.halfedges[t].twin != i {
                assert(self.twin(self.twin(i)) != i);
                return false;
            }
            i += 1;
        }
        let mut taken: Vec<bool> = vec![false; nh];
        i = 0;
        while i < nh
            invariant
                i <= nh,
                nh == self.halfedges@.len(),
                taken@.len() == nh,
                self.valid_handles(),
                self.twin_involutive(),
                forall|a: usize, b: usize|
                    a < i && b < i && #[trigger] self.next(a) == #[trigger] self.next(b) ==> a == b,
                forall|a: usize| a < i ==> taken@[#[trigger] self.next(a) as int],
                forall|x: int|
                    0 <= x < nh && #[trigger] taken@[x] ==> exists|a: usize|
                        a < i && #[trigger] self.next(a) == x,
            decreases nh - i,
        {
            let nx = self.halfedges[i].next;
            if taken[nx] {
                proof {
                    let a = choose|a: usize| a < i && #[trigger] self.next(a) == nx;
                    assert(self.next(a) == self.next(i) && a != i);
                }
                return false;
            }
            let ghost before = taken@;
            taken.set(nx, true);
            i += 1;
            proof {
                assert forall|x: int| 0 <= x < nh && #[trigger] taken@[x] implies exists|a: usize|
                    a < i && #[trigger] self.next(a) == x by {
                    if x == nx {
                        assert(self.next((i - 1) as usize) == x);
                    } else {
                        assert(before[x]);
                        let a = choose|a: usize| a < i - 1 && #[trigger] self.next(a) == x;
                        assert(a < i && self.next(a) == x);
                    }
                }
            }
        }
        true
    }

    /// The four vertices around edge `e`: the origin of its half-edge, the
    /// origin of that half-edge's twin, and the apex on either side, which is
    /// the origin of the half-edge two steps on around the face.
    pub open spec fn diamond(&self, e: usize) -> Seq<usize> {
        let he = self.edges@[e as int].he;
        let tw = self.twin(he);
        seq![
            self.origin(he),
            self.origin(tw),
            self.origin(self.next(self.next(he))),
            self.origin(self.next(self.next(tw))),
        ]
    }

    /// Return the four vertices around edge `e_id`: its two ends, then the
    /// apex of the triangle on the side of its half-edge and the apex of the
    /// triangle on the side of the twin.
    pub fn edge_diamond(&self, e_id: EdgeId) -> (around: [usize; 4])
        requires
            self.valid_handles(),
            e_id < self.edges@.len(),
        ensures
            around@ == self.diamond(e_id),
            forall|i: int| 0 <= i < 4 ==> #[trigger] around@[i] < self.vertices@.len(),
    {
        let he = self.edges[e_id].he;
        let tw = self.halfedges[he].twin;
        let a = self.halfedges[self.halfedges[he].next].next;
        let b = self.halfedges[self.halfedges[tw].next].next;
        [self.halfedges[he].from, self.halfedges[tw].from, self.halfedges[a].from, self.halfedges[b].from]
    }

    /// Walk from `start` by rotation (`around_vertex`) or by successor until
    /// the walk is back at `start`, and return the half-edges met.  The walk
    /// takes no more steps than the mesh has half-edges.
    fn orbit(&self, start: HalfEdgeId, around_vertex: bool) -> (path: Vec<HalfEdgeId>)
        requires
            self.valid_handles(),
            start < self.halfedges@.len(),
        ensures
            path@ == cycle(
                if around_vertex {
                    self.rot_map()
                } else {
                    self.next_map()
                },
                start,
                self.halfedges@.len(),
            ),
            1 <= path@.len() <= self.halfedges@.len(),
            path@[0] == start,
            forall|i: int| 0 <= i < path@.len() ==> #[trigger] path@[i] < self.halfedges@.len(),
    {
        let ghost step = if around_vertex {
            self.rot_map()
        } else {
            self.next_map()
        };
        let n = self.halfedges.len();
        let mut path: Vec<HalfEdgeId> = Vec::new();
        let mut he = start;
        loop
            invariant_except_break
                cycle(step, start, n as nat) == path@ + walk(step, start, he, (n - path@.len()) as nat),
                path@.len() < n,
                he < n,
                path@.len() == 0 ==> he == start,
            invariant
                self.valid_handles(),
                n == self.halfedges@.len(),
                step == if around_vertex {
                    self.rot_map()
                } else {
                    self.next_map()
                },
                path@.len() > 0 ==> path@[0] == start,
                forall|i: int| 0 <= i < path@.len() ==> #[trigger] path@[i] < n,
            ensures
                path@ == cycle(step, start, n as nat),
                1 <= path@.len() <= n,
            decreases n - path@.len(),
        {
            let ghost before = path@;
            path.push(he);
            let nx = if around_vertex {
                self.halfedges[self.halfedges[he].twin].next
            } else {
                self.halfedges[he].next
            };
            assert(nx == step(he));
            if nx == start || path.len() == n {
                proof {
                    let fuel = (n - before.len()) as nat;
                    assert(walk(step, start, nx, (fuel - 1) as nat).len() == 0 || nx == start) by {
                        reveal_with_fuel(walk, 2);
                    }
                    assert(walk(step, start, he, fuel) =~= seq![he]);
                    assert(cycle(step, start, n as nat) =~= path@);
                }
                break ;
            }
            proof {
                assert(before + (seq![he] + walk(step, start, nx, (n - path@.len()) as nat)) =~= path@
                    + walk(step, start, nx, (n - path@.len()) as nat));
            }
            he = nx;
        }
        path
    }

    /// Return the outgoing half-edges around vertex `vid`, in rotation order
    /// from its `he_out` on.
    pub fn vertex_ring(&self, vid: VertexId) -> (ring: Vec<HalfEdgeId>)
        requires
            self.valid_handles(),
            vid < self.vertices@.len(),
        ensures
            ring@ == self.ring(vid),
            1 <= ring@.len() <= self.halfedges@.len(),
            ring@[0] == self.vertices@[vid as int].he_out,
            forall|i: int| 0 <= i < ring@.len() ==> #[trigger] ring@[i] < self.halfedges@.len(),
    {
        self.orbit(self.vertices[vid].he_out, true)
    }

    /// Return the half-edges around face `f_id`, in the order of their
    /// successors from the face's `he` on.
    pub fn face_halfedges(&self, f_id: FaceId) -> (around: Vec<HalfEdgeId>)
        requires
            self.valid_handles(),
            f_id < self.faces@.len(),
        ensures
            around@ == self.face_cycle(f_id),
            1 <= around@.len() <= self.halfedges@.len(),
            around@[0] == self.faces@[f_id as int].he,
            forall|i: int| 0 <= i < around@.len() ==> #[trigger] around@[i] < self.halfedges@.len(),
    {
        self.orbit(self.faces[f_id].he, false)
    }

    /// The faces met around vertex `v`: the face of each half-edge of its ring.
    pub open spec fn ring_faces(&self, v: usize) -> Seq<usize> {
        Seq::new(self.ring(v).len(), |i: int| self.halfedges@[self.ring(v)[i] as int].face)
    }

    /// The vertices met around vertex `v`: for each half-edge of its ring,
    /// the origin of that half-edge's successor.
    pub open spec fn ring_neighbors(&self, v: usize) -> Seq<usize> {
        Seq::new(self.ring(v).len(), |i: int| self.origin(self.next(self.ring(v)[i])))
    }

    /// The edges met around vertex `v`: the edge of each half-edge of its ring.
    pub open spec fn ring_edges(&self, v: usize) -> Seq<usize> {
        Seq::new(self.ring(v).len(), |i: int| self.halfedges@[self.ring(v)[i] as int].edge)
    }

    /// The far ends of the half-edges around vertex `v`: for each half-edge
    /// of its ring, the origin of that half-edge's twin.
    pub open spec fn ring_ends(&self, v: usize) -> Seq<usize> {
        Seq::new(self.ring(v).len(), |i: int| self.dest(self.ring(v)[i]))
    }

    /// Return the far ends of the half-edges around vertex `vid`: the
    /// vertices that its outgoing half-edges lead to, in rotation order.
    pub fn vertex_ring_ends(&self, vid: VertexId) -> (ends: Vec<VertexId>)
        requires
            self.valid_handles(),
            vid < self.vertices@.len(),
        ensures
            ends@ == self.ring_ends(vid),
            forall|i: int| 0 <= i < ends@.len() ==> #[trigger] ends@[i] < self.vertices@.len(),
    {
        let ring = self.vertex_ring(vid);
        let mut ends: Vec<VertexId> = Vec::new();
        let mut i: usize = 0;
        while i < ring.len()
            invariant
                i <= ring@.len(),
                self.valid_handles(),
                ring@ == self.ring(vid),
                forall|k: int| 0 <= k < ring@.len() ==> #[trigger] ring@[k] < self.halfedges@.len(),
                ends@ == self.ring_ends(vid).take(i as int),
                forall|k: int| 0 <= k < ends@.len() ==> #[trigger] ends@[k] < self.vertices@.len(),
            decreases ring@.len() - i,
        {
            let twin = self.halfedges[ring[i]].twin;
            ends.push(self.halfedges[twin].from);
            i += 1;
            assert(ends@ =~= self.ring_ends(vid).take(i as int));
        }
        assert(ends@ =~= self.ring_ends(vid));
        ends
    }

    /// Return the IDs of faces incident to vertex `vid`.
    pub fn vertex_incident_faces(&self, vid: VertexId) -> (faces: Vec<FaceId>)
        requires
            self.valid_handles(),
            vid < self.vertices@.len(),
        ensures
            faces@ == self.ring_faces(vid),
    {
        let ring = self.vertex_ring(vid);
        let mut faces: Vec<FaceId> = Vec::new();
        let mut i: usize = 0;
        while i < ring.len()
            invariant
                i <= ring@.len(),
                ring@ == self.ring(vid),
                forall|k: int| 0 <= k < ring@.len() ==> #[trigger] ring@[k] < self.halfedges@.len(),
                faces@ == self.ring_faces(vid).take(i as int),
            decreases ring@.len() - i,
        {
            faces.push(self.halfedges[ring[i]].face);
            i += 1;
            assert(faces@ =~= self.ring_faces(vid).take(i as int));
        }
        assert(faces@ =~= self.ring_faces(vid));
        faces
    }

    /// Return the IDs of vertices adjacent to vertex `vid`.
    pub fn vertex_neighbors(&self, vid: VertexId) -> (nbrs: Vec<VertexId>)
        requires
            self.valid_handles(),
            vid < self.vertices@.len(),
        ensures
            nbrs@ == self.ring_neighbors(vid),
    {
        let ring = self.vertex_ring(vid);
        let mut nbrs: Vec<VertexId> = Vec::new();
        let mut i: usize = 0;
        while i < ring.len()
            invariant
                i <= ring@.len(),
                self.valid_handles(),
                ring@ == self.ring(vid),
                forall|k: int| 0 <= k < ring@.len() ==> #[trigger] ring@[k] < self.halfedges@.len(),
                nbrs@ == self.ring_neighbors(vid).take(i as int),
            decreases ring@.len() - i,
        {
            let next_he = self.halfedges[ring[i]].next;
            nbrs.push(self.halfedges[next_he].from);
            i += 1;
            assert(nbrs@ =~= self.ring_neighbors(vid).take(i as int));
        }
        assert(nbrs@ =~= self.ring_neighbors(vid));
        nbrs
    }

    /// Return the IDs of edges incident to vertex `vid`.
    pub fn vertex_incident_edges(&self, vid: VertexId) -> (edges: Vec<EdgeId>)
        requires
            self.valid_handles(),
            vid < self.vertices@.len(),
        ensures
            edges@ == self.ring_edges(vid),
    {
        let ring = self.vertex_ring(vid);
        let mut edges: Vec<EdgeId> = Vec::new();
        let mut i: usize = 0;
        while i < ring.len()
            invariant
                i <= ring@.len(),
                ring@ == self.ring(vid),
                forall|k: int| 0 <= k < ring@.len() ==> #[trigger] ring@[k] < self.halfedges@.len(),
                edges@ == self.ring_edges(vid).take(i as int),
            decreases ring@.len() - i,
        {
            edges.push(self.halfedges[ring[i]].edge);
            i += 1;
            assert(edges@ =~= self.ring_edges(vid).take(i as int));
        }
        assert(edges@ =~= self.ring_edges(vid));
        edges
    }
}

} // verus!
