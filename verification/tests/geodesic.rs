use ddg_mesh::algorithms::geodesic::{Geodesic, UNREACHED};
use ddg_mesh::mesh::half_edge::{Edge, Face, HalfEdge, Mesh, Vertex};

type Point = [f64; 3];

/// Order key of a length: the bits of a finite length that is not negative
/// are ordered as the lengths are.
fn key(length: f64) -> u64 {
    if length.is_finite() && length >= 0.0 {
        length.to_bits()
    } else {
        UNREACHED
    }
}

fn length(key: u64) -> f64 {
    if key == UNREACHED {
        f64::INFINITY
    } else {
        f64::from_bits(key)
    }
}

fn edge_length(p: &Point, q: &Point) -> f64 {
    let (dx, dy, dz) = (p[0] - q[0], p[1] - q[1], p[2] - q[2]);
    (dx * dx + dy * dy + dz * dz).sqrt()
}

fn advance(d: u64, p: &Point, q: &Point) -> u64 {
    key(length(d) + edge_length(p, q))
}

fn distances(mesh: &Mesh<Point, (), ()>, source: usize) -> Vec<f64> {
    Geodesic::dijkstra(mesh, source, advance).into_iter().map(length).collect()
}

fn octahedron() -> Mesh<Point, (), ()> {
    let positions = vec![
        [1.0, 0.0, 0.0],
        [-1.0, 0.0, 0.0],
        [0.0, 1.0, 0.0],
        [0.0, -1.0, 0.0],
        [0.0, 0.0, 1.0],
        [0.0, 0.0, -1.0],
    ];
    let counts = vec![3; 8];
    let indices = vec![0, 2, 4, 2, 1, 4, 1, 3, 4, 3, 0, 4, 2, 0, 5, 1, 2, 5, 3, 1, 5, 0, 3, 5];
    let mesh = Mesh::from_vertices_and_faces(positions, &counts, &indices).unwrap();
    assert!(mesh.is_well_formed());
    mesh
}

#[test]
fn distance_from_the_source_to_itself_is_zero() {
    let mesh = octahedron();
    for source in 0..6 {
        let dist = Geodesic::dijkstra(&mesh, source, advance);
        assert_eq!(dist[source], 0);
        assert_eq!(distances(&mesh, source)[source], 0.0);
    }
}

#[test]
fn distances_on_the_octahedron() {
    let mesh = octahedron();
    let side = 2f64.sqrt();
    let dist = distances(&mesh, 0);
    assert_eq!(dist, vec![0.0, side + side, side, side, side, side]);
    let dist = distances(&mesh, 5);
    assert_eq!(dist, vec![side, side, side, side, side + side, 0.0]);
}

#[test]
fn no_edge_undercuts_a_distance() {
    let mesh = octahedron();
    let dist = distances(&mesh, 2);
    for (h, he) in mesh.halfedges.iter().enumerate() {
        let u = he.from;
        let v = mesh.halfedges[he.twin].from;
        let along = edge_length(&mesh.vertices[u].attr, &mesh.vertices[v].attr);
        assert!(dist[v] <= dist[u] + along, "half-edge {} undercuts", h);
    }
}

#[test]
fn distances_follow_the_shorter_way_round() {
    // a square ring of four vertices joined in a cycle by four two-sided edges,
    // with one long side
    let mut mesh: Mesh<Point, (), ()> = Mesh::new();
    mesh.vertices = vec![
        Vertex { he_out: 0, attr: [0.0, 0.0, 0.0] },
        Vertex { he_out: 1, attr: [1.0, 0.0, 0.0] },
        Vertex { he_out: 2, attr: [1.0, 5.0, 0.0] },
        Vertex { he_out: 3, attr: [0.0, 1.0, 0.0] },
    ];
    // inner cycle 0->1->2->3->0 and outer cycle back
    mesh.halfedges = vec![
        HalfEdge { from: 0, twin: 4, next: 1, edge: 0, face: 0 },
        HalfEdge { from: 1, twin: 5, next: 2, edge: 1, face: 0 },
        HalfEdge { from: 2, twin: 6, next: 3, edge: 2, face: 0 },
        HalfEdge { from: 3, twin: 7, next: 0, edge: 3, face: 0 },
        HalfEdge { from: 1, twin: 0, next: 7, edge: 0, face: usize::MAX },
        HalfEdge { from: 2, twin: 1, next: 4, edge: 1, face: usize::MAX },
        HalfEdge { from: 3, twin: 2, next: 5, edge: 2, face: usize::MAX },
        HalfEdge { from: 0, twin: 3, next: 6, edge: 3, face: usize::MAX },
    ];
    mesh.edges = vec![
        Edge { he: 0, attr: () },
        Edge { he: 1, attr: () },
        Edge { he: 2, attr: () },
        Edge { he: 3, attr: () },
    ];
    mesh.faces = vec![Face { he: 0, attr: () }];
    assert!(mesh.is_well_formed());
    let dist = distances(&mesh, 0);
    // vertex 2 is reached over vertex 3: 1 + sqrt(1 + 16), not over vertex 1: 1 + 5
    assert_eq!(dist[0], 0.0);
    assert_eq!(dist[1], 1.0);
    assert_eq!(dist[3], 1.0);
    assert_eq!(dist[2], 1.0 + 17f64.sqrt());
    assert!(dist[2] < 6.0);
}

#[test]
fn a_vertex_that_no_edge_leads_to_is_unreached() {
    // a triangle and a fourth vertex that only its own half-edge touches
    let mut mesh: Mesh<Point, (), ()> = Mesh::new();
    mesh.vertices = vec![
        Vertex { he_out: 0, attr: [0.0, 0.0, 0.0] },
        Vertex { he_out: 1, attr: [3.0, 0.0, 0.0] },
        Vertex { he_out: 2, attr: [0.0, 4.0, 0.0] },
        Vertex { he_out: 6, attr: [9.0, 9.0, 9.0] },
    ];
    mesh.halfedges = vec![
        HalfEdge { from: 0, twin: 3, next: 1, edge: 0, face: 0 },
        HalfEdge { from: 1, twin: 4, next: 2, edge: 1, face: 0 },
        HalfEdge { from: 2, twin: 5, next: 0, edge: 2, face: 0 },
        HalfEdge { from: 1, twin: 0, next: 5, edge: 0, face: usize::MAX },
        HalfEdge { from: 2, twin: 1, next: 3, edge: 1, face: usize::MAX },
        HalfEdge { from: 0, twin: 2, next: 4, edge: 2, face: usize::MAX },
        HalfEdge { from: 3, twin: 6, next: 6, edge: 3, face: usize::MAX },
    ];
    mesh.edges = vec![
        Edge { he: 0, attr: () },
        Edge { he: 1, attr: () },
        Edge { he: 2, attr: () },
        Edge { he: 6, attr: () },
    ];
    mesh.faces = vec![Face { he: 0, attr: () }];
    assert!(mesh.is_well_formed());
    let keys = Geodesic::dijkstra(&mesh, 0, advance);
    assert_eq!(keys[3], UNREACHED);
    let dist = distances(&mesh, 0);
    assert_eq!(dist, vec![0.0, 3.0, 4.0, f64::INFINITY]);
    let from_far = distances(&mesh, 3);
    assert_eq!(from_far, vec![f64::INFINITY, f64::INFINITY, f64::INFINITY, 0.0]);
}

#[test]
fn integer_lengths_add_up() {
    // payloads are places on a line, and a hop costs the gap between them
    let positions: Vec<u64> = vec![0, 10, 30, 35];
    let mesh = Mesh::from_vertices_and_faces(positions, &[3, 3, 3, 3], &[0, 2, 1, 0, 1, 3, 1, 2, 3, 0, 3, 2])
        .unwrap();
    let dist = Geodesic::dijkstra(&mesh, 1, |d: u64, p: &u64, q: &u64| d + p.abs_diff(*q));
    assert_eq!(dist, vec![10, 0, 20, 25]);
}
