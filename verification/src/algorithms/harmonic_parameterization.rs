//! Harmonic parameterization: the combinatorial part.
//!
//! The linear system of the parameterization is numeric work for the caller.
//! What is decided here is which half-edges lie on the boundary, whose
//! origins are the vertices that the caller pins to the unit circle.

use vstd::prelude::*;
use crate::mesh::half_edge::{Mesh, NO_FACE};

verus! {

/// Harmonic parameterization algorithm for surface meshes.
pub struct HarmonicParameterization;

/// Half-edge `h` lies on the boundary: its twin borders no face.
pub open spec fn on_boundary<VA, EA, FA>(mesh: &Mesh<VA, EA, FA>, h: usize) -> bool {
    mesh.halfedges@[mesh.twin(h) as int].face == NO_FACE
}

impl HarmonicParameterization {
    /// Find boundary loop of the mesh: the half-edges whose twin borders no
    /// face, in the order of their handles.
    pub fn find_boundary_loop<VA, EA, FA>(mesh: &Mesh<VA, EA, FA>) -> (boundary: Vec<usize>)
        requires
            mesh.valid_handles(),
        ensures
            forall|i: int| 0 <= i < boundary@.len() ==> #[trigger] boundary@[i] < mesh.halfedges@.len(),
            forall|i: int| 0 <= i < boundary@.len() ==> on_boundary(mesh, #[trigger] boundary@[i]),
            forall|i: int, j: int| 0 <= i < j < boundary@.len() ==> boundary@[i] < boundary@[j],
            forall|h: usize|
                h < mesh.halfedges@.len() && #[trigger] on_boundary(mesh, h) ==> boundary@.contains(h),
    {
        let mut boundary: Vec<usize> = Vec::new();
        let n = mesh.halfedges.len();
        let mut h: usize = 0;
        while h < n
            invariant
                h <= n,
                n == mesh.halfedges@.len(),
                mesh.valid_handles(),
                forall|i: int| 0 <= i < boundary@.len() ==> #[trigger] boundary@[i] < h,
                forall|i: int| 0 <= i < boundary@.len() ==> on_boundary(mesh, #[trigger] boundary@[i]),
                forall|i: int, j: int| 0 <= i < j < boundary@.len() ==> boundary@[i] < boundary@[j],
                forall|g: usize| g < h && #[trigger] on_boundary(mesh, g) ==> boundary@.contains(g),
            decreases n - h,
        {
            if mesh.halfedges[mesh.halfedges[h].twin].face == NO_FACE {
                let ghost before = boundary@;
                boundary.push(h);
                proof {
                    assert(boundary@[boundary@.len() - 1] == h);
                    assert forall|g: usize| g < h + 1 && #[trigger] on_boundary(mesh, g) implies boundary@.contains(
                        g,
                    ) by {
                        if g < h {
                            let i = choose|i: int| 0 <= i < before.len() && before[i] == g;
                            assert(boundary@[i] == g);
                        }
                    }
                }
            }
            h += 1;
        }
        boundary
    }
}

} // verus!
