use ddg_mesh::error::Error;
use ddg_mesh::mesh::half_edge::Mesh;
use ddg_mesh::mesh::raw::check_raw_arrays;

fn tetrahedron() -> Mesh<[f64; 3], (), ()> {
    let positions = vec![[0.0, 0.0, 0.0], [1.0, 0.0, 0.0], [0.0, 1.0, 0.0], [0.0, 0.0, 1.0]];
    let counts = vec![3, 3, 3, 3];
    let indices = vec![0, 2, 1, 0, 1, 3, 1, 2, 3, 0, 3, 2];
    Mesh::from_vertices_and_faces(positions, &counts, &indices).unwrap()
}

#[test]
fn build_lays_out_one_half_edge_per_corner() {
    let mesh = tetrahedron();
    assert_eq!(mesh.vertices.len(), 4);
    assert_eq!(mesh.faces.len(), 4);
    assert_eq!(mesh.halfedges.len(), 12);
    assert_eq!(mesh.edges.len(), 6);
    let from: Vec<usize> = mesh.halfedges.iter().map(|h| h.from).collect();
    assert_eq!(from, vec![0, 2, 1, 0, 1, 3, 1, 2, 3, 0, 3, 2]);
    let next: Vec<usize> = mesh.halfedges.iter().map(|h| h.next).collect();
    assert_eq!(next, vec![1, 2, 0, 4, 5, 3, 7, 8, 6, 10, 11, 9]);
    let face: Vec<usize> = mesh.halfedges.iter().map(|h| h.face).collect();
    assert_eq!(face, vec![0, 0, 0, 1, 1, 1, 2, 2, 2, 3, 3, 3]);
    let face_he: Vec<usize> = mesh.faces.iter().map(|f| f.he).collect();
    assert_eq!(face_he, vec![0, 3, 6, 9]);
}

#[test]
fn build_pairs_opposite_half_edges() {
    let mesh = tetrahedron();
    let twin: Vec<usize> = mesh.halfedges.iter().map(|h| h.twin).collect();
    assert_eq!(twin, vec![11, 6, 3, 2, 8, 9, 1, 10, 4, 5, 7, 0]);
    let edge: Vec<usize> = mesh.halfedges.iter().map(|h| h.edge).collect();
    assert_eq!(edge, vec![0, 1, 2, 2, 3, 4, 1, 5, 3, 4, 5, 0]);
    let edge_he: Vec<usize> = mesh.edges.iter().map(|e| e.he).collect();
    assert_eq!(edge_he, vec![0, 1, 2, 4, 5, 7]);
    for (h, he) in mesh.halfedges.iter().enumerate() {
        assert_eq!(mesh.halfedges[he.twin].twin, h);
        assert_eq!(mesh.halfedges[he.twin].edge, he.edge);
    }
}

#[test]
fn build_points_each_vertex_to_its_last_outgoing_half_edge() {
    let mesh = tetrahedron();
    let he_out: Vec<usize> = mesh.vertices.iter().map(|v| v.he_out).collect();
    assert_eq!(he_out, vec![9, 6, 11, 10]);
    for (v, vertex) in mesh.vertices.iter().enumerate() {
        assert_eq!(mesh.halfedges[vertex.he_out].from, v);
    }
    assert_eq!(mesh.vertices[1].attr, [1.0, 0.0, 0.0]);
    assert_eq!(mesh.vertices[3].attr, [0.0, 0.0, 1.0]);
}

#[test]
fn closed_surface_is_well_formed() {
    let mesh = tetrahedron();
    assert!(mesh.has_valid_handles());
    assert!(mesh.is_well_formed());
    assert_eq!(mesh.vertex_ring(0), vec![9, 3, 0]);
    assert_eq!(mesh.vertex_incident_faces(0), vec![3, 1, 0]);
    assert_eq!(mesh.vertex_incident_edges(0), vec![4, 2, 0]);
    assert_eq!(mesh.vertex_neighbors(0), vec![3, 1, 2]);
    assert_eq!(mesh.vertex_ring_ends(0), vec![3, 1, 2]);
    // the ring has as many half-edges as the vertex has neighbours
    for v in 0..4 {
        assert_eq!(mesh.vertex_ring(v).len(), 3);
    }
}

#[test]
fn export_restores_the_arrays() {
    let counts = vec![3, 3, 3, 3];
    let indices = vec![0, 2, 1, 0, 1, 3, 1, 2, 3, 0, 3, 2];
    let mesh = tetrahedron();
    assert_eq!(mesh.face_vertex_counts(), counts);
    assert_eq!(mesh.face_vertex_indices(), indices);
    assert_eq!(mesh.face_polygon(2), vec![1, 2, 3]);
    assert_eq!(mesh.face_vertices(3), [0, 3, 2]);
}

#[test]
fn usd_roundtrip_arrays() {
    // Simple triangle mesh
    let positions = vec![[0.0, 0.0, 0.0], [1.0, 0.0, 0.0], [0.0, 1.0, 0.0]];
    let face_counts = vec![3];
    let indices = vec![0, 1, 2];
    let mesh = Mesh::from_vertices_and_faces(positions.clone(), &face_counts, &indices).unwrap();
    let loaded =
        Mesh::from_vertices_and_faces(positions, &mesh.face_vertex_counts(), &mesh.face_vertex_indices()).unwrap();
    assert_eq!(loaded.vertices.len(), mesh.vertices.len());
    assert_eq!(loaded.face_vertex_counts(), mesh.face_vertex_counts());
    assert_eq!(loaded.face_vertex_indices(), mesh.face_vertex_indices());
}

#[test]
fn unmatched_half_edges_keep_twin_zero() {
    let mesh = Mesh::from_vertices_and_faces(vec![(), (), ()], &[3], &[0, 1, 2]).unwrap();
    let twin: Vec<usize> = mesh.halfedges.iter().map(|h| h.twin).collect();
    assert_eq!(twin, vec![0, 0, 0]);
    let edge: Vec<usize> = mesh.halfedges.iter().map(|h| h.edge).collect();
    assert_eq!(edge, vec![0, 1, 2]);
    assert!(mesh.has_valid_handles());
    assert!(!mesh.is_well_formed());
}

#[test]
fn polygons_of_any_degree_are_accepted() {
    // a quad and a triangle that share the edge 1-2
    let mesh = Mesh::from_vertices_and_faces(vec![(); 5], &[4, 3], &[0, 1, 2, 3, 2, 1, 4]).unwrap();
    assert_eq!(mesh.halfedges.len(), 7);
    assert_eq!(mesh.faces.len(), 2);
    assert_eq!(mesh.edges.len(), 6);
    assert_eq!(mesh.halfedges[3].next, 0);
    assert_eq!(mesh.halfedges[6].next, 4);
    assert_eq!(mesh.halfedges[1].twin, 4);
    assert_eq!(mesh.halfedges[4].twin, 1);
    assert_eq!(mesh.halfedges[4].edge, mesh.halfedges[1].edge);
    assert_eq!(mesh.face_vertex_counts(), vec![4, 3]);
    assert_eq!(mesh.face_vertex_indices(), vec![0, 1, 2, 3, 2, 1, 4]);
}

#[test]
fn a_third_half_edge_on_an_edge_takes_the_registered_one() {
    // three triangles over the directed pairs 0-1, 1-0, 1-0
    let mesh = Mesh::from_vertices_and_faces(vec![(); 5], &[3, 3, 3], &[0, 1, 2, 1, 0, 3, 1, 0, 4]).unwrap();
    // half-edge 3 spans 1-0 and finds 0; half-edge 6 spans 1-0 and finds 0 too
    assert_eq!(mesh.halfedges[3].twin, 0);
    assert_eq!(mesh.halfedges[6].twin, 0);
    assert_eq!(mesh.halfedges[0].twin, 6);
    assert_eq!(mesh.halfedges[3].edge, mesh.halfedges[0].edge);
    assert_eq!(mesh.halfedges[6].edge, mesh.halfedges[0].edge);
}

#[test]
fn empty_arrays_give_an_empty_mesh() {
    let mesh = Mesh::<(), (), ()>::from_vertices_and_faces(vec![], &[], &[]).unwrap();
    assert_eq!(mesh.vertices.len(), 0);
    assert_eq!(mesh.halfedges.len(), 0);
    assert!(mesh.is_well_formed());
}

#[test]
fn vertices_without_faces_point_to_half_edge_zero() {
    let mesh = Mesh::from_vertices_and_faces(vec![(); 4], &[3], &[0, 1, 2]).unwrap();
    assert_eq!(mesh.vertices[3].he_out, 0);
    assert!(mesh.has_valid_handles());
}

#[test]
fn malformed_arrays_are_a_parse_error() {
    // the counts ask for more corners than there are
    let short = Mesh::from_vertices_and_faces(vec![(); 3], &[3, 3], &[0, 1, 2]);
    assert!(matches!(short, Err(Error::Parse(_))));
    // the counts leave corners over
    let long = Mesh::from_vertices_and_faces(vec![(); 3], &[3], &[0, 1, 2, 0]);
    assert!(matches!(long, Err(Error::Parse(_))));
    // a polygon without corners
    let hollow = Mesh::from_vertices_and_faces(vec![(); 3], &[3, 0], &[0, 1, 2]);
    assert!(matches!(hollow, Err(Error::Parse(_))));
    // a corner that names no vertex
    let stray = Mesh::from_vertices_and_faces(vec![(); 3], &[3], &[0, 1, 3]);
    assert!(matches!(stray, Err(Error::Parse(_))));
    // counts whose sum does not fit the machine word
    let huge = Mesh::from_vertices_and_faces(vec![(); 3], &[usize::MAX, usize::MAX], &[0, 1, 2]);
    assert!(matches!(huge, Err(Error::Parse(_))));
}

#[test]
fn raw_array_check_agrees_with_the_builder() {
    assert!(check_raw_arrays(3, &[3], &[0, 1, 2]));
    assert!(check_raw_arrays(0, &[], &[]));
    assert!(!check_raw_arrays(3, &[2], &[0, 1, 2]));
    assert!(!check_raw_arrays(3, &[0, 3], &[0, 1, 2]));
    assert!(!check_raw_arrays(2, &[3], &[0, 1, 2]));
}

#[test]
fn error_variants_carry_their_message() {
    let all = vec![
        Error::Io("disk".to_string()),
        Error::Parse("text".to_string()),
        Error::Topology("handle".to_string()),
        Error::Numeric("singular".to_string()),
        Error::Unsupported("format".to_string()),
    ];
    assert!(matches!(&all[0], Error::Io(m) if m == "disk"));
    assert!(matches!(&all[1], Error::Parse(m) if m == "text"));
    assert!(matches!(&all[2], Error::Topology(m) if m == "handle"));
    assert!(matches!(&all[3], Error::Numeric(m) if m == "singular"));
    assert!(matches!(&all[4], Error::Unsupported(m) if m == "format"));
}
