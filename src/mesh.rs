use vstd::prelude::*;

use crate::primitives::Triangle;

verus! {

/// Whether every corner of every triangle names one of `n` vertices.
pub open spec fn indices_valid(tris: Seq<[usize; 3]>, n: nat) -> bool {
    forall|t: int, c: int| 0 <= t < tris.len() && 0 <= c < 3 ==> (#[trigger] tris[t][c]) < n
}

/// `r` is `a` followed by `b`: the vertices of `b` after those of `a`, and the
/// triangles of `b` after those of `a`, with every index of `b` moved past the
/// vertices of `a`.
pub open spec fn is_concat<P>(
    a: IndexedTriangles<P>,
    b: IndexedTriangles<P>,
    r: IndexedTriangles<P>,
) -> bool {
    &&& r.verts() == a.verts() + b.verts()
    &&& r.tris().len() == a.tris().len() + b.tris().len()
    &&& forall|t: int| 0 <= t < a.tris().len() ==> #[trigger] r.tris()[t] == a.tris()[t]
    &&& forall|u: int, c: int|
        a.tris().len() <= u < r.tris().len() && 0 <= c < 3 ==> #[trigger] r.tris()[u][c]
            == b.tris()[u - a.tris().len()][c] + a.verts().len()
}

/// An indexed triangle mesh: a vertex list and, for each triangle, the indices
/// of its three corners in winding order.
#[derive(Debug)]
pub struct IndexedTriangles<P> {
    vertices: Vec<P>,
    triangles: Vec<[usize; 3]>,
}

impl<P> IndexedTriangles<P> {
    /// The vertex list.
    pub closed spec fn verts(&self) -> Seq<P> {
        self.vertices@
    }

    /// The triangles, as index triples into `verts()`.
    pub closed spec fn tris(&self) -> Seq<[usize; 3]> {
        self.triangles@
    }

    /// Every index of every triangle is below the vertex count.
    pub open spec fn wf(&self) -> bool {
        indices_valid(self.tris(), self.verts().len())
    }

    #[verifier::type_invariant]
    pub(crate) open spec fn inv(&self) -> bool {
        self.wf()
    }

    /// The point at corner `c` of triangle `t`.
    pub open spec fn corner(&self, t: int, c: int) -> P {
        self.verts()[self.tris()[t][c] as int]
    }

    /// The points of triangle `t`, in winding order.
    pub open spec fn triangle_points(&self, t: int) -> (P, P, P) {
        (self.corner(t, 0), self.corner(t, 1), self.corner(t, 2))
    }

    /// The mesh as a triangle soup.
    pub open spec fn soup(&self) -> Seq<(P, P, P)> {
        Seq::new(self.tris().len(), |t: int| self.triangle_points(t))
    }
}

/// A copy of `v`, element by element.
pub(crate) fn copy_vec<T: Copy>(v: &Vec<T>) -> (r: Vec<T>)
    ensures
        r@ == v@,
{
    let mut r: Vec<T> = Vec::new();
    let mut i: usize = 0;
    while i < v.len()
        invariant
            i <= v@.len(),
            r@ == v@.subrange(0, i as int),
        decreases v@.len() - i,
    {
        r.push(v[i]);
        i = i + 1;
        assert(r@ =~= v@.subrange(0, i as int));
    }
    assert(v@.subrange(0, v@.len() as int) =~= v@);
    r
}

impl<P: Copy> Clone for IndexedTriangles<P> {
    fn clone(&self) -> (r: Self)
        ensures
            r.verts() == self.verts(),
            r.tris() == self.tris(),
    {
        proof {
            use_type_invariant(self);
        }
        IndexedTriangles { vertices: copy_vec(&self.vertices), triangles: copy_vec(&self.triangles) }
    }
}

impl<P: Copy> IndexedTriangles<P> {
    /// A mesh from its vertex list and index triples.
    pub fn new(vertices: Vec<P>, triangles: Vec<[usize; 3]>) -> (r: Self)
        requires
            indices_valid(triangles@, vertices@.len()),
        ensures
            r.verts() == vertices@,
            r.tris() == triangles@,
    {
        IndexedTriangles { vertices, triangles }
    }

    /// The vertex list.
    pub fn vertices(&self) -> (r: &Vec<P>)
        ensures
            r@ == self.verts(),
    {
        &self.vertices
    }

    /// The index triples.
    pub fn triangles(&self) -> (r: &Vec<[usize; 3]>)
        ensures
            r@ == self.tris(),
    {
        &self.triangles
    }

    /// Both meshes side by side: `other`'s vertices follow this mesh's, and its
    /// triangles follow with every index moved past this mesh's vertices. No
    /// vertices are merged.
    pub fn concat(&self, other: &Self) -> (r: Self)
        requires
            self.verts().len() + other.verts().len() <= usize::MAX,
        ensures
            r.wf(),
            is_concat(*self, *other, r),
    {
        proof {
            use_type_invariant(self);
            use_type_invariant(other);
        }
        let n = self.vertices.len();
        let mut vertices = copy_vec(&self.vertices);
        let mut i: usize = 0;
        while i < other.vertices.len()
            invariant
                i <= other.verts().len(),
                vertices@ == self.verts() + other.verts().subrange(0, i as int),
            decreases other.verts().len() - i,
        {
            vertices.push(other.vertices[i]);
            i = i + 1;
            assert(vertices@ =~= self.verts() + other.verts().subrange(0, i as int));
        }
        assert(other.verts().subrange(0, other.verts().len() as int) =~= other.verts());
        let mut triangles = copy_vec(&self.triangles);
        let mut j: usize = 0;
        while j < other.triangles.len()
            invariant
                other.wf(),
                self.wf(),
                n == self.verts().len(),
                n + other.verts().len() <= usize::MAX,
                j <= other.tris().len(),
                triangles@.len() == self.tris().len() + j,
                forall|t: int| 0 <= t < self.tris().len() ==> #[trigger] triangles@[t] == self.tris()[t],
                forall|t: int, c: int|
                    0 <= t < j && 0 <= c < 3 ==> #[trigger] triangles@[self.tris().len() + t][c]
                        == other.tris()[t][c] + n,
                indices_valid(triangles@, (n + other.verts().len()) as nat),
            decreases other.tris().len() - j,
        {
            let t = other.triangles[j];
            assert(t[0] < other.verts().len() && t[1] < other.verts().len() && t[2] < other.verts().len());
            let shifted: [usize; 3] = [t[0] + n, t[1] + n, t[2] + n];
            triangles.push(shifted);
            j = j + 1;
            proof {
                assert forall|u: int, c: int|
                    0 <= u < triangles@.len() && 0 <= c < 3 implies (#[trigger] triangles@[u][c]) < n
                        + other.verts().len() by {
                    if u < triangles@.len() - 1 {
                    } else {
                        assert(triangles@[u] == shifted);
                    }
                }
            }
        }
        assert forall|u: int, c: int|
            self.tris().len() <= u < triangles@.len() && 0 <= c < 3 implies #[trigger] triangles@[u][c]
                == other.tris()[u - self.tris().len()][c] + n by {
            let t = u - self.tris().len();
            assert(triangles@[self.tris().len() + t][c] == other.tris()[t][c] + n);
        }
        IndexedTriangles { vertices, triangles }
    }

    /// The same triangles over the vertices `f(v)`, for each vertex `v` in order.
    /// Translation, scaling and rotation are this with the matching `f`.
    pub fn map_vertices<Q: Copy, F: Fn(P) -> Q>(&self, f: F) -> (r: IndexedTriangles<Q>)
        requires
            forall|i: int| 0 <= i < self.verts().len() ==> f.requires((#[trigger] self.verts()[i],)),
        ensures
            r.wf(),
            r.tris() == self.tris(),
            r.verts().len() == self.verts().len(),
            forall|i: int|
                0 <= i < self.verts().len() ==> f.ensures((self.verts()[i],), #[trigger] r.verts()[i]),
    {
        proof {
            use_type_invariant(self);
        }
        let mut vertices: Vec<Q> = Vec::new();
        let mut i: usize = 0;
        while i < self.vertices.len()
            invariant
                i <= self.verts().len(),
                vertices@.len() == i,
                forall|k: int| 0 <= k < self.verts().len() ==> f.requires((#[trigger] self.verts()[k],)),
                forall|k: int| 0 <= k < i ==> f.ensures((self.verts()[k],), #[trigger] vertices@[k]),
            decreases self.verts().len() - i,
        {
            let v = f(self.vertices[i]);
            vertices.push(v);
            i = i + 1;
        }
        IndexedTriangles { vertices, triangles: copy_vec(&self.triangles) }
    }

    /// A mesh from a vertex list and a flat list of indices, read three at a
    /// time. `None` when the list does not split into triples or names a vertex
    /// that does not exist.
    pub fn from_index_list(vertices: Vec<P>, indices: &Vec<u32>) -> (r: Option<Self>)
        ensures
            r is Some <==> indices@.len() % 3 == 0 && forall|k: int|
                0 <= k < indices@.len() ==> (#[trigger] indices@[k]) < vertices@.len(),
            r matches Some(m) ==> {
                &&& m.wf()
                &&& m.verts() == vertices@
                &&& m.tris().len() * 3 == indices@.len()
                &&& forall|t: int, c: int|
                    0 <= t < m.tris().len() && 0 <= c < 3 ==> #[trigger] m.tris()[t][c] == indices@[3
                        * t + c]
            },
    {
        if indices.len() % 3 != 0 {
            return None;
        }
        let mut k: usize = 0;
        while k < indices.len()
            invariant
                k <= indices@.len(),
                forall|j: int| 0 <= j < k ==> (#[trigger] indices@[j]) < vertices@.len(),
            decreases indices@.len() - k,
        {
            if indices[k] as usize >= vertices.len() {
                return None;
            }
            k = k + 1;
        }
        let mut triangles: Vec<[usize; 3]> = Vec::new();
        let mut t: usize = 0;
        while t < indices.len() / 3
            invariant
                indices@.len() % 3 == 0,
                forall|j: int| 0 <= j < indices@.len() ==> (#[trigger] indices@[j]) < vertices@.len(),
                t <= indices@.len() / 3,
                triangles@.len() == t,
                forall|u: int, c: int|
                    0 <= u < t && 0 <= c < 3 ==> #[trigger] triangles@[u][c] == indices@[3 * u + c],
            decreases indices@.len() / 3 - t,
        {
            let tri: [usize; 3] = [
                indices[3 * t] as usize,
                indices[3 * t + 1] as usize,
                indices[3 * t + 2] as usize,
            ];
            triangles.push(tri);
            t = t + 1;
        }
        proof {
            assert forall|u: int, c: int| 0 <= u < triangles@.len() && 0 <= c < 3 implies (
            #[trigger] triangles@[u][c]) < vertices@.len() by {
                assert(triangles@[u][c] == indices@[3 * u + c]);
            }
        }
        Some(IndexedTriangles { vertices, triangles })
    }

    /// The corner points of every triangle, three per triangle, in triangle order.
    pub fn iter_vertices(&self) -> (r: Vec<P>)
        ensures
            r@.len() == 3 * self.tris().len(),
            forall|t: int, c: int|
                0 <= t < self.tris().len() && 0 <= c < 3 ==> r@[3 * t + c] == self.corner(t, c),
    {
        proof {
            use_type_invariant(self);
        }
        let mut vs: Vec<P> = Vec::new();
        let mut i: usize = 0;
        while i < self.triangles.len()
            invariant
                self.wf(),
                i <= self.tris().len(),
                vs@.len() == 3 * i,
                forall|t: int, c: int|
                    0 <= t < i && 0 <= c < 3 ==> vs@[3 * t + c] == self.corner(t, c),
            decreases self.tris().len() - i,
        {
            let t = self.triangles[i];
            let (t0, t1, t2) = (t[0], t[1], t[2]);
            assert(self.tris()[i as int][0] < self.verts().len());
            assert(self.tris()[i as int][1] < self.verts().len());
            assert(self.tris()[i as int][2] < self.verts().len());
            vs.push(self.vertices[t0]);
            vs.push(self.vertices[t1]);
            vs.push(self.vertices[t2]);
            i = i + 1;
        }
        vs
    }

    /// The mesh as a triangle soup: one triangle of points per index triple.
    pub fn iter_triangles(&self) -> (r: Vec<Triangle<P>>)
        ensures
            r@.map_values(|t: Triangle<P>| t@) == self.soup(),
    {
        proof {
            use_type_invariant(self);
        }
        let mut ts: Vec<Triangle<P>> = Vec::new();
        let mut i: usize = 0;
        while i < self.triangles.len()
            invariant
                self.wf(),
                i <= self.tris().len(),
                ts@.len() == i,
                forall|t: int| 0 <= t < i ==> (#[trigger] ts@[t])@ == self.triangle_points(t),
            decreases self.tris().len() - i,
        {
            let t = self.triangles[i];
            let (t0, t1, t2) = (t[0], t[1], t[2]);
            assert(self.tris()[i as int][0] < self.verts().len());
            assert(self.tris()[i as int][1] < self.verts().len());
            assert(self.tris()[i as int][2] < self.verts().len());
            ts.push(Triangle::from_points([self.vertices[t0], self.vertices[t1], self.vertices[t2]]));
            i = i + 1;
        }
        assert(ts@.map_values(|t: Triangle<P>| t@) =~= self.soup());
        ts
    }
}

} // verus!
