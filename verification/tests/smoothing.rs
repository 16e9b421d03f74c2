use ddg_mesh::algorithms::smoothing::Smoothing;
use ddg_mesh::mesh::half_edge::Mesh;

fn tetrahedron() -> Mesh<(), (), ()> {
    Mesh::from_vertices_and_faces(vec![(); 4], &[3, 3, 3, 3], &[0, 2, 1, 0, 1, 3, 1, 2, 3, 0, 3, 2]).unwrap()
}

fn neighbour_mean(_i: usize, around: &Vec<usize>, prev: &Vec<f64>) -> f64 {
    let mut sum = 0.0;
    for &nbr in around {
        sum += prev[nbr];
    }
    sum / around.len() as f64
}

#[test]
fn smoothing_with_no_iterations_changes_nothing() {
    let mesh = tetrahedron();
    let mut positions = vec![0.0, 3.0, 6.0, 9.0];
    Smoothing::laplacian_smoothing(&mesh, &mut positions, 0, neighbour_mean);
    assert_eq!(positions, vec![0.0, 3.0, 6.0, 9.0]);
}

#[test]
fn a_round_reads_only_the_round_before() {
    let mesh = tetrahedron();
    let mut positions = vec![0.0, 3.0, 6.0, 9.0];
    Smoothing::laplacian_smoothing(&mesh, &mut positions, 1, neighbour_mean);
    // every vertex gets the mean of the other three as they were
    assert_eq!(positions, vec![6.0, 5.0, 4.0, 3.0]);
}

#[test]
fn rounds_follow_one_another() {
    let mesh = tetrahedron();
    let mut twice = vec![0.0, 3.0, 6.0, 9.0];
    Smoothing::laplacian_smoothing(&mesh, &mut twice, 2, neighbour_mean);
    let mut once_and_once = vec![0.0, 3.0, 6.0, 9.0];
    Smoothing::laplacian_smoothing(&mesh, &mut once_and_once, 1, neighbour_mean);
    Smoothing::laplacian_smoothing(&mesh, &mut once_and_once, 1, neighbour_mean);
    assert_eq!(twice, once_and_once);
    assert_eq!(twice, vec![4.0, 13.0 / 3.0, 14.0 / 3.0, 5.0]);
}

#[test]
fn damped_step_moves_part_of_the_way() {
    let mesh = tetrahedron();
    let alpha = 0.5;
    let area = [1.0, 2.0, 0.0, 4.0];
    let mut positions = vec![0.0, 3.0, 6.0, 9.0];
    Smoothing::laplacian_smoothing(&mesh, &mut positions, 1, |i: usize, around: &Vec<usize>, prev: &Vec<f64>| {
        let avg = neighbour_mean(i, around, prev);
        if area[i] != 0.0 {
            prev[i] + (avg - prev[i]) / area[i] * alpha
        } else {
            prev[i]
        }
    });
    // vertex 0: 0 + (6 - 0) / 1 * 0.5; vertex 1: 3 + (5 - 3) / 2 * 0.5;
    // vertex 2 has no area and stays; vertex 3: 9 + (3 - 9) / 4 * 0.5
    assert_eq!(positions, vec![3.0, 3.5, 6.0, 8.25]);
}
