use cgmath::Point2;
use feather::{Triangle, Triangles};

#[test]
fn triangle_new_converts_points() {
    let t: Triangle<Point2<f64>> = Triangle::new((-1.0, 0.0), (-1.0, -1.0), (0.0, -1.0));
    assert_eq!(t.iter(), vec![Point2::new(-1.0, 0.0), Point2::new(-1.0, -1.0), Point2::new(0.0, -1.0)]);
    assert_eq!(t.point(1), Point2::new(-1.0, -1.0));
}

#[test]
fn triangle_from_points_keeps_order() {
    let t = Triangle::from_points([3u32, 1, 2]);
    assert_eq!(t.iter(), vec![3, 1, 2]);
    assert_eq!(t.point(0), 3);
    assert_eq!(t.point(2), 2);
}

#[test]
fn triangles_hold_their_triangles() {
    let soup = Triangles::new(vec![Triangle::from_points([0u32, 1, 2]), Triangle::from_points([2u32, 1, 3])]);
    assert_eq!(soup.len(), 2);
    assert_eq!(soup.iter().len(), 2);
    assert_eq!(soup.get(1).iter(), vec![2, 1, 3]);
}
