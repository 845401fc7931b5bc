use feather::IndexedTriangles;

fn square() -> IndexedTriangles<(i64, i64)> {
    IndexedTriangles::new(vec![(0, 0), (1, 0), (1, 1), (0, 1)], vec![[0, 1, 2], [0, 2, 3]])
}

#[test]
fn new_keeps_vertices_and_triangles() {
    let m = square();
    assert_eq!(m.vertices(), &vec![(0, 0), (1, 0), (1, 1), (0, 1)]);
    assert_eq!(m.triangles(), &vec![[0, 1, 2], [0, 2, 3]]);
}

#[test]
fn iter_vertices_lists_corners_per_triangle() {
    let m = square();
    assert_eq!(m.iter_vertices(), vec![(0, 0), (1, 0), (1, 1), (0, 0), (1, 1), (0, 1)]);
}

#[test]
fn iter_triangles_gives_the_soup() {
    let m = square();
    let ts = m.iter_triangles();
    assert_eq!(ts.len(), 2);
    assert_eq!(ts[0].iter(), vec![(0, 0), (1, 0), (1, 1)]);
    assert_eq!(ts[1].iter(), vec![(0, 0), (1, 1), (0, 1)]);
}

#[test]
fn concat_appends_and_shifts_indices() {
    let a = square();
    let b = IndexedTriangles::new(vec![(5, 5), (6, 5), (5, 6)], vec![[0, 1, 2]]);
    let c = a.concat(&b);
    assert_eq!(c.vertices().len(), a.vertices().len() + b.vertices().len());
    assert_eq!(c.triangles().len(), a.triangles().len() + b.triangles().len());
    assert_eq!(c.triangles(), &vec![[0, 1, 2], [0, 2, 3], [4, 5, 6]]);
    assert_eq!(c.vertices()[4], (5, 5));
    for t in c.triangles() {
        for i in t {
            assert!(*i < c.vertices().len());
        }
    }
}

#[test]
fn concat_keeps_coincident_vertices_apart() {
    let a = square();
    let c = a.concat(&a);
    assert_eq!(c.vertices().len(), 8);
    assert_eq!(c.outer_edge_indices().len(), 8);
}

#[test]
fn map_vertices_translates() {
    let m = square();
    let moved = m.map_vertices(|p: (i64, i64)| (p.0 - 2, p.1 + 1));
    assert_eq!(moved.vertices(), &vec![(-2, 1), (-1, 1), (-1, 2), (-2, 2)]);
    assert_eq!(moved.triangles(), m.triangles());
}

#[test]
fn from_index_list_groups_triples() {
    let m = IndexedTriangles::from_index_list(vec![10, 20, 30, 40], &vec![0, 1, 2, 2, 3, 0]).unwrap();
    assert_eq!(m.vertices(), &vec![10, 20, 30, 40]);
    assert_eq!(m.triangles(), &vec![[0, 1, 2], [2, 3, 0]]);
}

#[test]
fn from_index_list_rejects_partial_triple() {
    assert!(IndexedTriangles::from_index_list(vec![10, 20, 30], &vec![0, 1, 2, 0]).is_none());
}

#[test]
fn from_index_list_rejects_missing_vertex() {
    assert!(IndexedTriangles::from_index_list(vec![10, 20, 30], &vec![0, 1, 3]).is_none());
}

#[test]
fn clone_is_equal() {
    let m = square();
    let c = m.clone();
    assert_eq!(c.vertices(), m.vertices());
    assert_eq!(c.triangles(), m.triangles());
}
