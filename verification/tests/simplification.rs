use ddg_mesh::algorithms::simplification::Simplification;
use ddg_mesh::mesh::half_edge::{Edge, Face, HalfEdge, Mesh, Vertex};

#[derive(Clone, Copy, Debug, PartialEq)]
struct Point {
    x: f64,
    y: f64,
    z: f64,
}

impl Point {
    fn new(x: f64, y: f64, z: f64) -> Self {
        Point { x, y, z }
    }
}

type Mesh3D = Mesh<Point, (), ()>;

/// Order key of a length: the bits of a finite length that is not negative
/// are ordered as the lengths are.
fn key(length: f64) -> u64 {
    if length.is_finite() {
        length.to_bits()
    } else {
        u64::MAX
    }
}

fn length(p: &Point, q: &Point) -> u64 {
    let (dx, dy, dz) = (p.x - q.x, p.y - q.y, p.z - q.z);
    key((dx * dx + dy * dy + dz * dz).sqrt())
}

fn midpoint(p: &Point, q: &Point) -> Point {
    Point::new((p.x + q.x) * 0.5, (p.y + q.y) * 0.5, (p.z + q.z) * 0.5)
}

#[test]
fn test_edge_collapse() {
    // Create a simple mesh with 4 vertices and 2 faces
    let mut mesh = Mesh3D::new();
    mesh.vertices = vec![
        Vertex { he_out: 0, attr: Point::new(0.0, 0.0, 0.0) },
        Vertex { he_out: 1, attr: Point::new(1.0, 0.0, 0.0) },
        Vertex { he_out: 2, attr: Point::new(0.0, 1.0, 0.0) },
        Vertex { he_out: 3, attr: Point::new(1.0, 1.0, 0.0) },
    ];
    mesh.halfedges = vec![
        HalfEdge { from: 0, twin: 1, next: 2, edge: 0, face: 0 },
        HalfEdge { from: 1, twin: 0, next: 3, edge: 0, face: 0 },
        HalfEdge { from: 2, twin: 3, next: 0, edge: 1, face: 0 },
        HalfEdge { from: 1, twin: 2, next: 4, edge: 1, face: 0 },
        HalfEdge { from: 3, twin: 5, next: 1, edge: 2, face: 1 },
        HalfEdge { from: 2, twin: 4, next: 3, edge: 2, face: 1 },
    ];
    mesh.edges = vec![
        Edge { he: 0, attr: () },
        Edge { he: 2, attr: () },
        Edge { he: 4, attr: () },
    ];
    mesh.faces = vec![
        Face { he: 0, attr: () },
        Face { he: 4, attr: () },
    ];

    // Simplify the mesh to 3 vertices
    Simplification::edge_collapse(&mut mesh, 3, length, midpoint);

    // Check the number of vertices
    assert_eq!(mesh.vertices.len(), 3);
}

fn tetrahedron() -> Mesh3D {
    let positions = vec![
        Point::new(0.0, 0.0, 0.0),
        Point::new(1.0, 0.0, 0.0),
        Point::new(0.0, 4.0, 0.0),
        Point::new(0.0, 0.0, 8.0),
    ];
    Mesh::from_vertices_and_faces(positions, &[3, 3, 3, 3], &[0, 2, 1, 0, 1, 3, 1, 2, 3, 0, 3, 2]).unwrap()
}

#[test]
fn collapse_stops_at_the_target() {
    for target in 1..4 {
        let mut mesh = tetrahedron();
        Simplification::edge_collapse(&mut mesh, target, length, midpoint);
        assert_eq!(mesh.vertices.len(), target);
        assert!(mesh.is_well_formed());
        assert_eq!(mesh.halfedges.len(), 12);
        assert_eq!(mesh.edges.len(), 6);
        assert_eq!(mesh.faces.len(), 4);
    }
}

#[test]
fn collapse_leaves_a_mesh_at_or_below_the_target_alone() {
    for target in [4, 5, 100] {
        let mut mesh = tetrahedron();
        Simplification::edge_collapse(&mut mesh, target, length, midpoint);
        assert_eq!(mesh.vertices.len(), 4);
        let from: Vec<usize> = mesh.halfedges.iter().map(|h| h.from).collect();
        assert_eq!(from, vec![0, 2, 1, 0, 1, 3, 1, 2, 3, 0, 3, 2]);
        assert_eq!(mesh.vertices[2].attr, Point::new(0.0, 4.0, 0.0));
    }
}

#[test]
fn collapse_ends_when_no_edge_is_left() {
    let mut mesh = tetrahedron();
    Simplification::edge_collapse(&mut mesh, 0, length, midpoint);
    // one vertex is left, and every edge joins it to itself
    assert_eq!(mesh.vertices.len(), 1);
    for he in &mesh.halfedges {
        assert_eq!(he.from, 0);
    }
}

#[test]
fn cheapest_edge_goes_first() {
    let mut mesh = tetrahedron();
    // the shortest edge joins vertex 0 at the origin and vertex 1 at (1, 0, 0)
    Simplification::edge_collapse(&mut mesh, 3, length, midpoint);
    assert_eq!(mesh.vertices.len(), 3);
    let kept: Vec<Point> = mesh.vertices.iter().map(|v| v.attr).collect();
    assert!(kept.contains(&Point::new(0.5, 0.0, 0.0)));
    assert!(kept.contains(&Point::new(0.0, 4.0, 0.0)));
    assert!(kept.contains(&Point::new(0.0, 0.0, 8.0)));
}

#[test]
fn collapse_edge_renames_the_origins() {
    let mut mesh = tetrahedron();
    // edge 0 has half-edge 0, which leads from vertex 0 to vertex 2
    assert_eq!(Simplification::compute_edge_cost(&mesh, 0, &length), 4f64.to_bits());
    Simplification::collapse_edge(&mut mesh, 0, Point::new(7.0, 7.0, 7.0));
    assert_eq!(mesh.vertices.len(), 3);
    // vertex 2 is gone: it became vertex 0, and vertex 3 moved down to 2
    let from: Vec<usize> = mesh.halfedges.iter().map(|h| h.from).collect();
    assert_eq!(from, vec![0, 0, 1, 0, 1, 2, 1, 0, 2, 0, 2, 0]);
    assert_eq!(mesh.vertices[0].attr, Point::new(7.0, 7.0, 7.0));
    assert_eq!(mesh.vertices[1].attr, Point::new(1.0, 0.0, 0.0));
    assert_eq!(mesh.vertices[2].attr, Point::new(0.0, 0.0, 8.0));
    let he_out: Vec<usize> = mesh.vertices.iter().map(|v| v.he_out).collect();
    assert_eq!(he_out, vec![9, 6, 10]);
    // the links between half-edges are as they were
    let twin: Vec<usize> = mesh.halfedges.iter().map(|h| h.twin).collect();
    assert_eq!(twin, vec![11, 6, 3, 2, 8, 9, 1, 10, 4, 5, 7, 0]);
    assert!(mesh.is_well_formed());
}

#[test]
fn collapse_edge_keeps_the_lower_handle_when_the_kept_end_is_above() {
    let mut mesh = tetrahedron();
    // edge 3 has half-edge 4, which leads from vertex 1 to vertex 3: vertex 3 goes
    Simplification::collapse_edge(&mut mesh, 3, Point::new(2.0, 2.0, 2.0));
    let from: Vec<usize> = mesh.halfedges.iter().map(|h| h.from).collect();
    assert_eq!(from, vec![0, 2, 1, 0, 1, 1, 1, 2, 1, 0, 1, 2]);
    assert_eq!(mesh.vertices[1].attr, Point::new(2.0, 2.0, 2.0));
    // edge 1 has half-edge 1, which leads from vertex 2 to vertex 1: vertex 1
    // goes, and the kept vertex 2 moves down to its place
    Simplification::collapse_edge(&mut mesh, 1, Point::new(3.0, 3.0, 3.0));
    let from: Vec<usize> = mesh.halfedges.iter().map(|h| h.from).collect();
    assert_eq!(from, vec![0, 1, 1, 0, 1, 1, 1, 1, 1, 0, 1, 1]);
    assert_eq!(mesh.vertices.len(), 2);
    assert_eq!(mesh.vertices[1].attr, Point::new(3.0, 3.0, 3.0));
    assert_eq!(mesh.vertices[0].attr, Point::new(0.0, 0.0, 0.0));
}
