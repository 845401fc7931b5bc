use cgmath::{AbsDiffEq, Point2};
use feather::weld::find_vertex;
use feather::{IndexedTriangles, Triangle, Triangles};

const EPSILON: f64 = 0.000_000_1;

fn near(a: Point2<f64>, b: Point2<f64>) -> bool {
    a.abs_diff_eq(&b, EPSILON)
}

fn two_squares_soup() -> Triangles<Point2<f64>> {
    Triangles::new(vec![
        Triangle::new((0.0, 0.0), (1.0, 0.0), (1.0, 1.0)),
        Triangle::new((0.0, 0.0), (1.0, 1.0), (0.0, 1.0)),
    ])
}

#[test]
fn welding_shares_equal_corners() {
    let m = IndexedTriangles::from_triangles(&two_squares_soup(), near);
    assert_eq!(m.vertices().len(), 4);
    assert_eq!(m.triangles(), &vec![[0, 1, 2], [0, 2, 3]]);
    assert_eq!(m.vertices()[3], Point2::new(0.0, 1.0));
}

#[test]
fn welding_merges_within_epsilon_first_match_wins() {
    let soup = Triangles::new(vec![
        Triangle::new((0.0, 0.0), (1.0, 0.0), (0.0, 1.0)),
        Triangle::new((0.000_000_01, 0.0), (1.0, 0.000_000_05), (1.0, 1.0)),
    ]);
    let m = IndexedTriangles::from_triangles(&soup, near);
    assert_eq!(m.vertices().len(), 4);
    assert_eq!(m.triangles(), &vec![[0, 1, 2], [0, 1, 3]]);
    assert_eq!(m.vertices()[0], Point2::new(0.0, 0.0));
    assert_eq!(m.vertices()[1], Point2::new(1.0, 0.0));
}

#[test]
fn welding_keeps_points_beyond_epsilon_apart() {
    let soup = Triangles::new(vec![
        Triangle::new((0.0, 0.0), (1.0, 0.0), (0.0, 1.0)),
        Triangle::new((0.000_001, 0.0), (1.0, 0.0), (1.0, 1.0)),
    ]);
    let m = IndexedTriangles::from_triangles(&soup, near);
    assert_eq!(m.vertices().len(), 5);
    assert_eq!(m.triangles(), &vec![[0, 1, 2], [3, 1, 4]]);
}

#[test]
fn welding_an_empty_soup() {
    let soup: Triangles<Point2<f64>> = Triangles::new(vec![]);
    let m = IndexedTriangles::from_triangles(&soup, near);
    assert!(m.vertices().is_empty());
    assert!(m.triangles().is_empty());
}

#[test]
fn welding_round_trip_is_stable() {
    let soup = Triangles::new(vec![
        Triangle::new((0.0, 0.0), (1.0, 0.0), (1.0, 1.0)),
        Triangle::new((0.000_000_02, 0.0), (1.0, 1.0), (0.0, 1.0)),
        Triangle::new((1.0, 0.0), (2.0, 0.0), (1.0, 1.000_000_03)),
    ]);
    let first = IndexedTriangles::from_triangles(&soup, near);
    let again = IndexedTriangles::from_triangles(&Triangles::new(first.iter_triangles()), near);
    assert_eq!(again.vertices(), first.vertices());
    assert_eq!(again.triangles(), first.triangles());
    assert_eq!(again.outer_edge_indices(), first.outer_edge_indices());
}

#[test]
fn find_vertex_returns_first_match() {
    let vs = vec![Point2::new(0.0, 0.0), Point2::new(1.0, 0.0), Point2::new(1.0, 0.0)];
    assert_eq!(find_vertex(&vs, Point2::new(1.0, 0.000_000_01), &near), Some(1));
    assert_eq!(find_vertex(&vs, Point2::new(2.0, 0.0), &near), None);
}
