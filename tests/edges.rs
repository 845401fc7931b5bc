use feather::IndexedTriangles;

#[test]
fn outer_edges_of_a_square() {
    let m = IndexedTriangles::new(vec![(0, 0), (1, 0), (1, 1), (0, 1)], vec![[0, 1, 2], [0, 2, 3]]);
    assert_eq!(m.outer_edge_indices(), vec![(0, 1), (1, 2), (2, 3), (3, 0)]);
    assert_eq!(
        m.outer_edges(),
        vec![((0, 0), (1, 0)), ((1, 0), (1, 1)), ((1, 1), (0, 1)), ((0, 1), (0, 0))]
    );
}

#[test]
fn closed_tetrahedron_has_no_outer_edges() {
    let m = IndexedTriangles::new(
        vec![(0, 0, 0), (1, 0, 0), (0, 1, 0), (0, 0, 1)],
        vec![[0, 2, 1], [0, 1, 3], [1, 2, 3], [0, 3, 2]],
    );
    assert!(m.outer_edge_indices().is_empty());
    assert!(m.outer_edges().is_empty());
}

#[test]
fn closed_octahedron_has_no_outer_edges() {
    let m = IndexedTriangles::new(
        vec![0, 1, 2, 3, 4, 5],
        vec![
            [0, 2, 4], [2, 1, 4], [1, 3, 4], [3, 0, 4],
            [2, 0, 5], [1, 2, 5], [3, 1, 5], [0, 3, 5],
        ],
    );
    assert!(m.outer_edge_indices().is_empty());
}

#[test]
fn open_face_of_a_box_is_its_outline() {
    let m = IndexedTriangles::new(
        vec![(0, 0, 0), (1, 0, 0), (0, 1, 0), (0, 0, 1)],
        vec![[0, 2, 1], [0, 1, 3], [1, 2, 3]],
    );
    assert_eq!(m.outer_edge_indices(), vec![(0, 2), (2, 3), (3, 0)]);
}

#[test]
fn edge_used_three_times_is_outer() {
    let m = IndexedTriangles::new(vec![0, 1, 2, 3, 4], vec![[0, 1, 2], [1, 0, 3], [0, 1, 4]]);
    let edges = m.outer_edge_indices();
    assert!(edges.contains(&(0, 1)));
    assert!(!edges.contains(&(1, 0)));
}

#[test]
fn manifold_edges_keep_forward_edges() {
    let m = IndexedTriangles::new(vec![0, 1, 2], vec![[0, 1, 2], [2, 1, 0]]);
    assert_eq!(m.as_manifold_edges(), vec![(0, 1), (1, 2), (0, 2)]);
}
