use ddg_mesh::algorithms::subdivision::Subdivision;
use ddg_mesh::mesh::half_edge::{Edge, Face, HalfEdge, Mesh, Vertex};

#[derive(Clone, Copy, Debug, PartialEq)]
struct Vector3 {
    x: f64,
    y: f64,
    z: f64,
}

impl Vector3 {
    fn new(x: f64, y: f64, z: f64) -> Self {
        Vector3 { x, y, z }
    }

    fn zero() -> Self {
        Vector3::new(0.0, 0.0, 0.0)
    }

    fn plus(self, o: Vector3) -> Self {
        Vector3::new(self.x + o.x, self.y + o.y, self.z + o.z)
    }

    fn times(self, s: f64) -> Self {
        Vector3::new(self.x * s, self.y * s, self.z * s)
    }

    fn near(self, o: Vector3) -> bool {
        (self.x - o.x).abs() < 1e-12 && (self.y - o.y).abs() < 1e-12 && (self.z - o.z).abs() < 1e-12
    }
}

type Mesh3D = Mesh<Vector3, (), ()>;

fn centroid(m: &Mesh3D, corners: &Vec<usize>) -> Vector3 {
    let mut sum = Vector3::zero();
    for &c in corners {
        sum = sum.plus(m.vertices[c].attr);
    }
    sum.times(1.0 / corners.len() as f64)
}

fn cc_edge(m: &Mesh3D, v0: usize, v1: usize, f0: usize, f1: usize, face_points: &Vec<Vector3>) -> Vector3 {
    m.vertices[v0].attr.plus(m.vertices[v1].attr).plus(face_points[f0]).plus(face_points[f1]).times(0.25)
}

fn cc_vertex(
    m: &Mesh3D,
    v: usize,
    faces: &Vec<usize>,
    edges: &Vec<usize>,
    face_points: &Vec<Vector3>,
    edge_points: &Vec<Vector3>,
) -> Vector3 {
    let mut f = Vector3::zero();
    for &face in faces {
        f = f.plus(face_points[face]);
    }
    let mut r = Vector3::zero();
    for &edge in edges {
        r = r.plus(edge_points[edge]);
    }
    let n = edges.len() as f64;
    f.plus(r.times(2.0)).plus(m.vertices[v].attr.times(n - 3.0)).times(1.0 / n)
}

fn loop_edge(m: &Mesh3D, v0: usize, v1: usize, wings: Option<(usize, usize)>) -> Vector3 {
    let ends = m.vertices[v0].attr.plus(m.vertices[v1].attr).times(3.0);
    match wings {
        Some((a, b)) => ends.plus(m.vertices[a].attr).plus(m.vertices[b].attr).times(1.0 / 8.0),
        None => ends.times(1.0 / 6.0),
    }
}

fn loop_vertex(m: &Mesh3D, v: usize, edges: &Vec<usize>, edge_points: &Vec<Vector3>) -> Vector3 {
    let mut r = Vector3::zero();
    for &edge in edges {
        r = r.plus(edge_points[edge]);
    }
    let n = edges.len() as f64;
    r.plus(m.vertices[v].attr.times(3.0)).times(1.0 / (n + 3.0))
}

fn tetrahedron() -> Mesh3D {
    let positions = vec![
        Vector3::new(0.0, 0.0, 0.0),
        Vector3::new(1.0, 0.0, 0.0),
        Vector3::new(0.0, 1.0, 0.0),
        Vector3::new(0.0, 0.0, 1.0),
    ];
    Mesh::from_vertices_and_faces(positions, &[3, 3, 3, 3], &[0, 2, 1, 0, 1, 3, 1, 2, 3, 0, 3, 2]).unwrap()
}

#[test]
fn test_catmull_clark() {
    // Create a simple mesh with 4 vertices and 1 face
    let mut mesh = Mesh3D::new();
    mesh.vertices = vec![
        Vertex { he_out: 0, attr: Vector3::new(0.0, 0.0, 0.0) },
        Vertex { he_out: 1, attr: Vector3::new(1.0, 0.0, 0.0) },
        Vertex { he_out: 2, attr: Vector3::new(0.0, 1.0, 0.0) },
        Vertex { he_out: 3, attr: Vector3::new(1.0, 1.0, 0.0) },
    ];
    mesh.halfedges = vec![
        HalfEdge { from: 0, twin: 1, next: 2, edge: 0, face: 0 },
        HalfEdge { from: 1, twin: 0, next: 3, edge: 0, face: 0 },
        HalfEdge { from: 2, twin: 3, next: 0, edge: 1, face: 0 },
        HalfEdge { from: 1, twin: 2, next: 4, edge: 1, face: 0 },
        HalfEdge { from: 3, twin: 5, next: 1, edge: 2, face: 1 },
        HalfEdge { from: 2, twin: 4, next: 3, edge: 2, face: 1 },
    ];
    mesh.edges = vec![
        Edge { he: 0, attr: () },
        Edge { he: 2, attr: () },
        Edge { he: 4, attr: () },
    ];
    mesh.faces = vec![
        Face { he: 0, attr: () },
        Face { he: 4, attr: () },
    ];

    // Perform Catmull-Clark subdivision
    Subdivision::catmull_clark(&mut mesh, centroid, cc_edge, cc_vertex);

    // Check the number of vertices
    assert_eq!(mesh.vertices.len(), 4);
}

#[test]
fn test_loop_subdivision() {
    // Create a simple mesh with 4 vertices and 1 face
    let mut mesh = Mesh3D::new();
    mesh.vertices = vec![
        Vertex { he_out: 0, attr: Vector3::new(0.0, 0.0, 0.0) },
        Vertex { he_out: 1, attr: Vector3::new(1.0, 0.0, 0.0) },
        Vertex { he_out: 2, attr: Vector3::new(0.0, 1.0, 0.0) },
        Vertex { he_out: 3, attr: Vector3::new(1.0, 1.0, 0.0) },
    ];
    mesh.halfedges = vec![
        HalfEdge { from: 0, twin: 1, next: 2, edge: 0, face: 0 },
        HalfEdge { from: 1, twin: 0, next: 3, edge: 0, face: 0 },
        HalfEdge { from: 2, twin: 3, next: 0, edge: 1, face: 0 },
        HalfEdge { from: 1, twin: 2, next: 4, edge: 1, face: 0 },
        HalfEdge { from: 3, twin: 5, next: 1, edge: 2, face: 1 },
        HalfEdge { from: 2, twin: 4, next: 3, edge: 2, face: 1 },
    ];
    mesh.edges = vec![
        Edge { he: 0, attr: () },
        Edge { he: 2, attr: () },
        Edge { he: 4, attr: () },
    ];
    mesh.faces = vec![
        Face { he: 0, attr: () },
        Face { he: 4, attr: () },
    ];

    // Perform Loop subdivision
    Subdivision::loop_subdivision(&mut mesh, loop_edge, loop_vertex);

    // Check the number of vertices
    assert_eq!(mesh.vertices.len(), 4);
}

#[test]
fn catmull_clark_on_the_tetrahedron() {
    let mut mesh = tetrahedron();
    let before: Vec<usize> = mesh.halfedges.iter().map(|h| h.twin).collect();
    Subdivision::catmull_clark(&mut mesh, centroid, cc_edge, cc_vertex);
    // the new corner at the origin: (F + 2R + (n - 3) P) / n with n = 3,
    // F = (2/3, 2/3, 2/3) and R = (7/12, 7/12, 7/12)
    let c = 11.0 / 18.0;
    assert!(mesh.vertices[0].attr.near(Vector3::new(c, c, c)));
    // the topology is as it was
    assert_eq!(mesh.vertices.len(), 4);
    assert_eq!(mesh.edges.len(), 6);
    assert_eq!(mesh.faces.len(), 4);
    let after: Vec<usize> = mesh.halfedges.iter().map(|h| h.twin).collect();
    assert_eq!(before, after);
    let he_out: Vec<usize> = mesh.vertices.iter().map(|v| v.he_out).collect();
    assert_eq!(he_out, vec![9, 6, 11, 10]);
}

#[test]
fn loop_subdivision_on_the_tetrahedron() {
    let mut mesh = tetrahedron();
    Subdivision::loop_subdivision(&mut mesh, loop_edge, loop_vertex);
    // edge points around the origin sum to (5/8, 5/8, 5/8); the new corner
    // is (R + 3 P) / (n + 3) with n = 3
    let c = 5.0 / 48.0;
    assert!(mesh.vertices[0].attr.near(Vector3::new(c, c, c)));
    // vertex 1 = (1, 0, 0): its edge points sum to (9/8, 5/8, 5/8)
    assert!(mesh.vertices[1].attr.near(Vector3::new((9.0 / 8.0 + 3.0) / 6.0, c, c)));
    assert_eq!(mesh.vertices.len(), 4);
    assert!(mesh.is_well_formed());
}

#[test]
fn new_positions_are_computed_before_any_is_stored() {
    // every vertex takes the payload of the vertex that its first edge leads
    // to; a pass that stored as it went would hand a moved payload on
    let mut mesh: Mesh<u32, (), ()> =
        Mesh::from_vertices_and_faces(vec![10, 20, 30, 40], &[3, 3, 3, 3], &[0, 2, 1, 0, 1, 3, 1, 2, 3, 0, 3, 2])
            .unwrap();
    Subdivision::loop_subdivision(
        &mut mesh,
        |_m: &Mesh<u32, (), ()>, _a: usize, _b: usize, _w: Option<(usize, usize)>| 0,
        |m: &Mesh<u32, (), ()>, v: usize, _edges: &Vec<usize>, _eps: &Vec<u32>| {
            let he = m.vertices[v].he_out;
            m.vertices[m.halfedges[m.halfedges[he].twin].from].attr
        },
    );
    let payloads: Vec<u32> = mesh.vertices.iter().map(|v| v.attr).collect();
    // he_out 9 leads 0 -> 3, 6 leads 1 -> 2, 11 leads 2 -> 0, 10 leads 3 -> 2
    assert_eq!(payloads, vec![40, 30, 10, 30]);
}

#[test]
fn boundary_edges_have_no_wings() {
    let mut mesh: Mesh<u32, (), ()> = Mesh::new();
    mesh.vertices = vec![
        Vertex { he_out: 0, attr: 0 },
        Vertex { he_out: 1, attr: 0 },
        Vertex { he_out: 2, attr: 0 },
    ];
    mesh.halfedges = vec![
        HalfEdge { from: 0, twin: 3, next: 1, edge: 0, face: 0 },
        HalfEdge { from: 1, twin: 4, next: 2, edge: 1, face: 0 },
        HalfEdge { from: 2, twin: 5, next: 0, edge: 2, face: 0 },
        HalfEdge { from: 1, twin: 0, next: 5, edge: 0, face: usize::MAX },
        HalfEdge { from: 2, twin: 1, next: 3, edge: 1, face: usize::MAX },
        HalfEdge { from: 0, twin: 2, next: 4, edge: 2, face: usize::MAX },
    ];
    mesh.edges = vec![Edge { he: 0, attr: () }, Edge { he: 1, attr: () }, Edge { he: 2, attr: () }];
    mesh.faces = vec![Face { he: 0, attr: () }];
    Subdivision::loop_subdivision(
        &mut mesh,
        |_m: &Mesh<u32, (), ()>, _a: usize, _b: usize, w: Option<(usize, usize)>| if w.is_some() { 1 } else { 2 },
        |_m: &Mesh<u32, (), ()>, _v: usize, edges: &Vec<usize>, eps: &Vec<u32>| edges.iter().map(|&e| eps[e]).sum(),
    );
    // each vertex meets two boundary edges
    let payloads: Vec<u32> = mesh.vertices.iter().map(|v| v.attr).collect();
    assert_eq!(payloads, vec![4, 4, 4]);
}
