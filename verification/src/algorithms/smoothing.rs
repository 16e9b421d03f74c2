//! Smoothing by rounds of local averaging.

use vstd::prelude::*;
use crate::mesh::half_edge::Mesh;

verus! {

/// Mesh smoothing algorithms.
pub struct Smoothing;

/// `value` is what `step` may give for vertex `i`, the far ends of the
/// half-edges around it, and the positions `before`.
pub open spec fn stepped<VA, EA, FA, P, F: Fn(usize, &Vec<usize>, &Vec<P>) -> P>(
    mesh: &Mesh<VA, EA, FA>,
    step: F,
    before: Seq<P>,
    i: usize,
    value: P,
) -> bool {
    exists|around: Vec<usize>, prev: Vec<P>|
        around@ == mesh.ring_ends(i) && prev@ == before && #[trigger] call_ensures(
            step,
            (i, &around, &prev),
            value,
        )
}

/// One round: every position of `after` is stepped from the positions
/// `before`, none from a position of `after`.
pub open spec fn is_round<VA, EA, FA, P, F: Fn(usize, &Vec<usize>, &Vec<P>) -> P>(
    mesh: &Mesh<VA, EA, FA>,
    step: F,
    before: Seq<P>,
    after: Seq<P>,
) -> bool {
    &&& after.len() == before.len()
    &&& forall|i: usize| i < after.len() ==> stepped(mesh, step, before, i, #[trigger] after[i as int])
}

/// `after` comes from `before` by `rounds` rounds, one after another.
pub open spec fn smoothed<VA, EA, FA, P, F: Fn(usize, &Vec<usize>, &Vec<P>) -> P>(
    mesh: &Mesh<VA, EA, FA>,
    step: F,
    before: Seq<P>,
    after: Seq<P>,
    rounds: nat,
) -> bool
    decreases rounds,
{
    if rounds == 0 {
        after == before
    } else {
        exists|mid: Seq<P>|
            smoothed(mesh, step, before, mid, (rounds - 1) as nat) && #[trigger] is_round(
                mesh,
                step,
                mid,
                after,
            )
    }
}

impl Smoothing {
    /// Perform Laplacian smoothing on vertex positions.
    ///
    /// In each of `iterations` rounds every vertex gets the position that
    /// `step` gives for its handle, the vertices that its outgoing
    /// half-edges lead to, and the positions of the round before.  All
    /// positions of a round are computed before any of them is stored.
    pub fn laplacian_smoothing<VA, EA, FA, P, F: Fn(usize, &Vec<usize>, &Vec<P>) -> P>(
        mesh: &Mesh<VA, EA, FA>,
        positions: &mut Vec<P>,
        iterations: usize,
        step: F,
    )
        requires
            mesh.valid_handles(),
            old(positions)@.len() == mesh.vertices@.len(),
            forall|i: usize, around: &Vec<usize>, prev: &Vec<P>|
                i < mesh.vertices@.len() && around@ == mesh.ring_ends(i) && prev@.len()
                    == mesh.vertices@.len() ==> call_requires(step, (i, around, prev)),
        ensures
            smoothed(mesh, step, old(positions)@, final(positions)@, iterations as nat),
            final(positions)@.len() == old(positions)@.len(),
            iterations == 0 ==> final(positions)@ == old(positions)@,
    {
        let n = mesh.vertices.len();
        let mut round: usize = 0;
        while round < iterations
            invariant
                round <= iterations,
                mesh.valid_handles(),
                n == mesh.vertices@.len(),
                positions@.len() == n,
                forall|i: usize, around: &Vec<usize>, prev: &Vec<P>|
                    i < mesh.vertices@.len() && around@ == mesh.ring_ends(i) && prev@.len()
                        == mesh.vertices@.len() ==> call_requires(step, (i, around, prev)),
                smoothed(mesh, step, old(positions)@, positions@, round as nat),
                round == 0 ==> positions@ == old(positions)@,
            decreases iterations - round,
        {
            let ghost before = positions@;
            let mut fresh: Vec<P> = Vec::new();
            let mut i: usize = 0;
            while i < n
                invariant
                    i <= n,
                    mesh.valid_handles(),
                    n == mesh.vertices@.len(),
                    positions@ == before,
                    before.len() == n,
                    fresh@.len() == i,
                    forall|i: usize, around: &Vec<usize>, prev: &Vec<P>|
                    i < mesh.vertices@.len() && around@ == mesh.ring_ends(i) && prev@.len()
                        == mesh.vertices@.len() ==> call_requires(step, (i, around, prev)),
                    forall|j: usize| j < i ==> stepped(mesh, step, before, j, #[trigger] fresh@[j as int]),
                decreases n - i,
            {
                let around = mesh.vertex_ring_ends(i);
                let moved = step(i, &around, positions);
                assert(stepped(mesh, step, before, i, moved));
                fresh.push(moved);
                i += 1;
            }
            *positions = fresh;
            round += 1;
            assert(is_round(mesh, step, before, positions@));
        }
    }
}

} // verus!
