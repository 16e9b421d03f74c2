use ddg_mesh::algorithms::harmonic_parameterization::HarmonicParameterization;
use ddg_mesh::mesh::half_edge::{Edge, Face, HalfEdge, Mesh, Vertex, NO_FACE};

/// A unit square of two triangles, with a half-edge outside every boundary edge.
fn square() -> Mesh<[f64; 3], (), ()> {
    let mut mesh = Mesh::new();
    mesh.vertices = vec![
        Vertex { he_out: 0, attr: [0.0, 0.0, 0.0] },
        Vertex { he_out: 1, attr: [1.0, 0.0, 0.0] },
        Vertex { he_out: 4, attr: [1.0, 1.0, 0.0] },
        Vertex { he_out: 5, attr: [0.0, 1.0, 0.0] },
    ];
    mesh.halfedges = vec![
        HalfEdge { from: 0, twin: 6, next: 1, edge: 0, face: 0 },
        HalfEdge { from: 1, twin: 7, next: 2, edge: 1, face: 0 },
        HalfEdge { from: 2, twin: 3, next: 0, edge: 2, face: 0 },
        HalfEdge { from: 0, twin: 2, next: 4, edge: 2, face: 1 },
        HalfEdge { from: 2, twin: 8, next: 5, edge: 3, face: 1 },
        HalfEdge { from: 3, twin: 9, next: 3, edge: 4, face: 1 },
        HalfEdge { from: 1, twin: 0, next: 9, edge: 0, face: NO_FACE },
        HalfEdge { from: 2, twin: 1, next: 6, edge: 1, face: NO_FACE },
        HalfEdge { from: 3, twin: 4, next: 7, edge: 3, face: NO_FACE },
        HalfEdge { from: 0, twin: 5, next: 8, edge: 4, face: NO_FACE },
    ];
    mesh.edges = vec![
        Edge { he: 0, attr: () },
        Edge { he: 1, attr: () },
        Edge { he: 2, attr: () },
        Edge { he: 4, attr: () },
        Edge { he: 5, attr: () },
    ];
    mesh.faces = vec![Face { he: 0, attr: () }, Face { he: 3, attr: () }];
    mesh
}

#[test]
fn boundary_loop_of_the_unit_square() {
    let mesh = square();
    assert!(mesh.is_well_formed());
    let boundary = HarmonicParameterization::find_boundary_loop(&mesh);
    assert_eq!(boundary, vec![0, 1, 4, 5]);
    let pinned: Vec<usize> = boundary.iter().map(|&h| mesh.halfedges[h].from).collect();
    assert_eq!(pinned, vec![0, 1, 2, 3]);
}

#[test]
fn closed_mesh_has_no_boundary() {
    let mesh = Mesh::from_vertices_and_faces(vec![(); 4], &[3, 3, 3, 3], &[0, 2, 1, 0, 1, 3, 1, 2, 3, 0, 3, 2])
        .unwrap();
    assert_eq!(HarmonicParameterization::find_boundary_loop(&mesh), Vec::<usize>::new());
}

#[test]
fn rings_pass_through_the_boundary() {
    let mesh = square();
    // around vertex 0: inner half-edge 0, the diagonal, and the outer half-edge
    assert_eq!(mesh.vertex_ring(0), vec![0, 9, 3]);
    assert_eq!(mesh.vertex_incident_faces(0), vec![0, NO_FACE, 1]);
    assert_eq!(mesh.vertex_ring_ends(0), vec![1, 3, 2]);
    assert_eq!(mesh.edge_diamond(2), [2, 0, 1, 3]);
}
