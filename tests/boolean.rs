use feather::boolean::{crossings, split_edges};
use feather::IndexedTriangles;

type P = (f64, f64);

/// The crossing point of two segments whose ends lie strictly on both sides of
/// each other, by their implicit line equations.
fn intersect(a: (P, P), b: (P, P)) -> Option<P> {
    let side = |s: (P, P), p: P| (s.1 .0 - s.0 .0) * (p.1 - s.0 .1) - (s.1 .1 - s.0 .1) * (p.0 - s.0 .0);
    let crosses_a = side(a, b.0).signum() != side(a, b.1).signum();
    let crosses_b = side(b, a.0).signum() != side(b, a.1).signum();
    if crosses_a && crosses_b {
        let d1 = side(b, a.0);
        let d2 = side(b, a.1);
        let t = d1 / (d1 - d2);
        Some((a.0 .0 + t * (a.1 .0 - a.0 .0), a.0 .1 + t * (a.1 .1 - a.0 .1)))
    } else {
        None
    }
}

fn triangle_at(x: f64) -> IndexedTriangles<P> {
    IndexedTriangles::new(vec![(x + 1.0, 0.0), (x - 0.5, 0.866), (x - 0.5, -0.866)], vec![[0, 1, 2]])
}

#[test]
fn union_of_disjoint_triangles_is_concat() {
    let a = triangle_at(0.0);
    let b = triangle_at(5.0);
    let u = a.union(&b, intersect);
    let c = a.concat(&b);
    assert_eq!(u.vertices(), c.vertices());
    assert_eq!(u.triangles(), c.triangles());
}

#[test]
fn union_of_overlapping_triangles_is_still_concat() {
    let a = triangle_at(0.0);
    let b = triangle_at(0.5);
    let u = a.union(&b, intersect);
    assert_eq!(u.vertices().len(), 6);
    assert_eq!(u.triangles(), &vec![[0, 1, 2], [3, 4, 5]]);
}

#[test]
fn crossing_segments_are_split() {
    let a = vec![((0.0, 0.0), (2.0, 2.0)), ((5.0, 5.0), (6.0, 5.0))];
    let b = vec![((0.0, 2.0), (2.0, 0.0))];
    let hits = crossings(&a, &b, &intersect);
    assert_eq!(hits, vec![vec![Some((1.0, 1.0))], vec![None]]);
    let pieces = split_edges(&a, &b, &hits);
    assert_eq!(
        pieces,
        vec![((0.0, 0.0), (1.0, 1.0)), ((1.0, 1.0), (2.0, 0.0)), ((5.0, 5.0), (6.0, 5.0))]
    );
}

#[test]
fn segments_without_crossings_stay_whole() {
    let a = vec![((0.0, 0.0), (1.0, 0.0))];
    let b = vec![((0.0, 1.0), (1.0, 1.0)), ((3.0, 3.0), (4.0, 4.0))];
    let hits = crossings(&a, &b, &intersect);
    let pieces = split_edges(&a, &b, &hits);
    assert_eq!(pieces, vec![a[0], b[0], b[1]]);
}
