use vstd::prelude::*;
use vstd::std_specs::convert::IntoSpec;

verus! {

/// Corner `c` (0, 1 or 2) of a triangle of points.
pub open spec fn pick<P>(t: (P, P, P), c: int) -> P {
    if c == 0 {
        t.0
    } else if c == 1 {
        t.1
    } else {
        t.2
    }
}

/// A single triangle: three points in winding order.
#[derive(Clone, Copy, Debug)]
pub struct Triangle<P>([P; 3]);

impl<P> View for Triangle<P> {
    type V = (P, P, P);

    closed spec fn view(&self) -> (P, P, P) {
        (self.0[0], self.0[1], self.0[2])
    }
}

impl<P: Copy> Triangle<P> {
    /// A triangle from three points, each converted into the point type.
    pub fn new<Q: Into<P>>(p1: Q, p2: Q, p3: Q) -> (r: Self)
        ensures
            Q::obeys_into_spec() ==> r@ == (p1.into_spec(), p2.into_spec(), p3.into_spec()),
    {
        Triangle([p1.into(), p2.into(), p3.into()])
    }

    /// A triangle from its three points.
    pub fn from_points(points: [P; 3]) -> (r: Self)
        ensures
            r@ == (points[0], points[1], points[2]),
    {
        Triangle(points)
    }

    /// The point at corner `c`.
    pub fn point(&self, c: usize) -> (r: P)
        requires
            c < 3,
        ensures
            r == pick(self@, c as int),
    {
        self.0[c]
    }

    /// The three points, in winding order.
    pub fn iter(&self) -> (r: Vec<P>)
        ensures
            r@ == seq![self@.0, self@.1, self@.2],
    {
        let r = vec![self.0[0], self.0[1], self.0[2]];
        assert(r@ =~= seq![self@.0, self@.1, self@.2]);
        r
    }
}

/// A triangle soup: triangles that share no vertex storage.
#[derive(Clone, Debug)]
pub struct Triangles<P>(Vec<Triangle<P>>);

impl<P> View for Triangles<P> {
    type V = Seq<(P, P, P)>;

    closed spec fn view(&self) -> Seq<(P, P, P)> {
        self.0@.map_values(|t: Triangle<P>| t@)
    }
}

impl<P: Copy> Triangles<P> {
    /// A soup holding the given triangles, in order.
    pub fn new(triangles: Vec<Triangle<P>>) -> (r: Self)
        ensures
            r@ == triangles@.map_values(|t: Triangle<P>| t@),
    {
        Triangles(triangles)
    }

    /// The triangles, in order.
    pub fn iter(&self) -> (r: &Vec<Triangle<P>>)
        ensures
            r@.map_values(|t: Triangle<P>| t@) == self@,
    {
        &self.0
    }

    /// The number of triangles.
    pub fn len(&self) -> (r: usize)
        ensures
            r == self@.len(),
    {
        self.0.len()
    }

    /// The triangle at `i`.
    pub fn get(&self, i: usize) -> (r: Triangle<P>)
        requires
            i < self@.len(),
        ensures
            r@ == self@[i as int],
    {
        self.0[i]
    }
}

} // verus!
