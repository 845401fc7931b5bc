use cgmath::{AbsDiffEq, Point2, Point3};
use feather::{IndexedTriangles, Triangle, Triangles};

fn near(a: Point2<f64>, b: Point2<f64>) -> bool {
    a.abs_diff_eq(&b, 0.000_000_1)
}

fn square() -> IndexedTriangles<Point2<f64>> {
    let soup = Triangles::new(vec![
        Triangle::new((1.0, 0.0), (0.0, 1.0), (-1.0, 0.0)),
        Triangle::new((1.0, 0.0), (-1.0, 0.0), (0.0, -1.0)),
    ]);
    IndexedTriangles::from_triangles(&soup, near)
}

fn extrude(m: &IndexedTriangles<Point2<f64>>, extent: f64) -> IndexedTriangles<Point3<f64>> {
    let half = extent / 2.0;
    m.extrude_linear(|p: Point2<f64>| Point3::new(p.x, p.y, half), |p: Point2<f64>| Point3::new(p.x, p.y, -half))
}

#[test]
fn extruded_square_has_eight_vertices_at_half_extent() {
    let solid = extrude(&square(), 1.0);
    assert_eq!(solid.vertices().len(), 8);
    for (i, v) in solid.vertices().iter().enumerate() {
        if i < 4 {
            assert_eq!(v.z, 0.5);
        } else {
            assert_eq!(v.z, -0.5);
        }
    }
}

#[test]
fn extrusion_counts_caps_and_walls() {
    let flat = square();
    let v = flat.vertices().len();
    let b = flat.outer_edge_indices().len();
    let t = flat.triangles().len();
    let solid = extrude(&flat, 2.0);
    assert_eq!(solid.vertices().len(), 2 * v);
    assert_eq!(solid.triangles().len(), 2 * t + 2 * b);
    assert_eq!(b, 4);
}

#[test]
fn extrusion_index_pattern() {
    let flat = IndexedTriangles::new(vec![0u8, 1, 2], vec![[0, 1, 2]]);
    let solid = flat.extrude_linear(|p: u8| (p, 1i8), |p: u8| (p, -1i8));
    assert_eq!(solid.vertices(), &vec![(0, 1), (1, 1), (2, 1), (0, -1), (1, -1), (2, -1)]);
    assert_eq!(
        solid.triangles(),
        &vec![
            [0, 1, 2],
            [3, 5, 4],
            [0, 3, 1],
            [4, 1, 3],
            [1, 4, 2],
            [5, 2, 4],
            [2, 5, 0],
            [3, 0, 5],
        ]
    );
}

#[test]
fn extruded_square_is_closed() {
    let solid = extrude(&square(), 1.0);
    assert!(solid.outer_edge_indices().is_empty());
}

#[test]
fn disjoint_triangles_extrude_separately() {
    let soup = Triangles::new(vec![
        Triangle::new((-1.0, 0.0), (-1.0, -1.0), (0.0, -1.0)),
        Triangle::new((1.0, 0.0), (1.0, 1.0), (0.0, 1.0)),
    ]);
    let flat = IndexedTriangles::from_triangles(&soup, near);
    let solid = extrude(&flat, 1.0);
    assert_eq!(solid.vertices().len(), 12);
    assert_eq!(solid.triangles().len(), 2 * 2 + 2 * 6);
}
