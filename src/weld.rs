use vstd::prelude::*;

use crate::edges::boundary_edges;
use crate::mesh::{indices_valid, IndexedTriangles};
use crate::primitives::{pick, Triangles};

verus! {

/// The corners of a triangle soup, three per triangle, in order.
pub open spec fn soup_corners<P>(s: Seq<(P, P, P)>) -> Seq<P>
    decreases s.len(),
{
    if s.len() == 0 {
        Seq::empty()
    } else {
        soup_corners(s.drop_last()) + seq![s.last().0, s.last().1, s.last().2]
    }
}

/// The indices of a list of index triples, three per triangle, in order.
pub open spec fn flat_indices(tris: Seq<[usize; 3]>) -> Seq<usize>
    decreases tris.len(),
{
    if tris.len() == 0 {
        Seq::empty()
    } else {
        flat_indices(tris.drop_last()) + seq![tris.last()[0], tris.last()[1], tris.last()[2]]
    }
}

/// How many vertices the first `k` corners created: a corner creates one when
/// its index is the current vertex count.
pub open spec fn created(idx: Seq<usize>, k: int) -> nat
    decreases k,
{
    if k <= 0 {
        0
    } else {
        let m = created(idx, k - 1);
        if idx[k - 1] == m {
            m + 1
        } else {
            m
        }
    }
}

/// Corner `k` was welded correctly: with `m` vertices existing at that point,
/// its index `i` is at most `m`; `near` rejected it against every vertex before
/// `i`; and either `i == m` and the corner became vertex `m`, or `near`
/// accepted it against vertex `i`.
pub open spec fn weld_step<P, F: Fn(P, P) -> bool>(
    near: F,
    corners: Seq<P>,
    verts: Seq<P>,
    idx: Seq<usize>,
    k: int,
) -> bool {
    let m = created(idx, k);
    &&& idx[k] <= m
    &&& forall|j: int| 0 <= j < idx[k] ==> near.ensures((corners[k], verts[j]), false)
    &&& if idx[k] == m {
        verts[m as int] == corners[k]
    } else {
        near.ensures((corners[k], verts[idx[k] as int]), true)
    }
}

/// `verts` and `idx` are what welding `corners` in order gives: each corner
/// takes the first existing vertex that `near` accepts, or else becomes a new
/// vertex at the end of the list.
pub open spec fn weld_ok<P, F: Fn(P, P) -> bool>(
    near: F,
    corners: Seq<P>,
    verts: Seq<P>,
    idx: Seq<usize>,
) -> bool {
    &&& idx.len() == corners.len()
    &&& verts.len() == created(idx, corners.len() as int)
    &&& forall|k: int| 0 <= k < corners.len() ==> #[trigger] weld_step(near, corners, verts, idx, k)
}

/// `m` is the mesh that welding the triangle soup `soup` with `near` gives.
pub open spec fn welded<P, F: Fn(P, P) -> bool>(
    near: F,
    soup: Seq<(P, P, P)>,
    m: IndexedTriangles<P>,
) -> bool {
    &&& m.tris().len() == soup.len()
    &&& weld_ok(near, soup_corners(soup), m.verts(), flat_indices(m.tris()))
}

proof fn lemma_created_push(idx: Seq<usize>, x: usize, k: int)
    requires
        0 <= k <= idx.len(),
    ensures
        created(idx.push(x), k) == created(idx, k),
    decreases k,
{
    if k > 0 {
        lemma_created_push(idx, x, k - 1);
    }
}

proof fn lemma_created_monotone(idx: Seq<usize>, k1: int, k2: int)
    requires
        k1 <= k2,
    ensures
        created(idx, k1) <= created(idx, k2),
    decreases k2 - k1,
{
    if k1 < k2 {
        lemma_created_monotone(idx, k1, k2 - 1);
    }
}

/// Welding one more corner keeps `weld_ok`.
proof fn lemma_weld_extend<P, F: Fn(P, P) -> bool>(
    near: F,
    corners: Seq<P>,
    verts: Seq<P>,
    idx: Seq<usize>,
    v: P,
    i: usize,
    verts2: Seq<P>,
)
    requires
        weld_ok(near, corners, verts, idx),
        i <= verts.len(),
        forall|j: int| 0 <= j < i ==> near.ensures((v, verts[j]), false),
        if i == verts.len() {
            verts2 == verts.push(v)
        } else {
            verts2 == verts && near.ensures((v, verts[i as int]), true)
        },
    ensures
        weld_ok(near, corners.push(v), verts2, idx.push(i)),
{
    let c2 = corners.push(v);
    let i2 = idx.push(i);
    let n = corners.len() as int;
    lemma_created_push(idx, i, n);
    assert(created(i2, n + 1) == verts2.len());
    assert forall|k: int| 0 <= k < c2.len() implies #[trigger] weld_step(near, c2, verts2, i2, k) by {
        if k < n {
            assert(weld_step(near, corners, verts, idx, k));
            lemma_created_push(idx, i, k);
            lemma_created_monotone(idx, k + 1, n);
            assert(c2[k] == corners[k]);
            assert(i2[k] == idx[k]);
            assert forall|j: int| 0 <= j < created(idx, k + 1) implies verts2[j] == verts[j] by {}
        } else {
            assert(k == n);
        }
    }
}

/// The index of the first vertex of `vs` that `near` accepts for `v`.
pub fn find_vertex<P: Copy, F: Fn(P, P) -> bool>(vs: &Vec<P>, v: P, near: &F) -> (r: Option<usize>)
    requires
        forall|j: int| 0 <= j < vs@.len() ==> near.requires((v, #[trigger] vs@[j])),
    ensures
        match r {
            Some(i) => {
                &&& i < vs@.len()
                &&& near.ensures((v, vs@[i as int]), true)
                &&& forall|j: int| 0 <= j < i ==> near.ensures((v, vs@[j]), false)
            },
            None => forall|j: int| 0 <= j < vs@.len() ==> near.ensures((v, vs@[j]), false),
        },
{
    let mut i: usize = 0;
    while i < vs.len()
        invariant
            i <= vs@.len(),
            forall|j: int| 0 <= j < vs@.len() ==> near.requires((v, #[trigger] vs@[j])),
            forall|j: int| 0 <= j < i ==> near.ensures((v, vs@[j]), false),
        decreases vs@.len() - i,
    {
        let hit = near(v, vs[i]);
        if hit {
            return Some(i);
        }
        i = i + 1;
    }
    None
}

/// Welds one corner into `vertices` and returns its index.
fn weld_corner<P: Copy, F: Fn(P, P) -> bool>(vertices: &mut Vec<P>, v: P, near: &F) -> (i: usize)
    requires
        forall|a: P, b: P| near.requires((a, b)),
        old(vertices)@.len() < usize::MAX,
    ensures
        i <= old(vertices)@.len(),
        forall|j: int| 0 <= j < i ==> near.ensures((v, old(vertices)@[j]), false),
        if i == old(vertices)@.len() {
            final(vertices)@ == old(vertices)@.push(v)
        } else {
            &&& final(vertices)@ == old(vertices)@
            &&& near.ensures((v, old(vertices)@[i as int]), true)
        },
{
    match find_vertex(vertices, v, near) {
        Some(i) => i,
        None => {
            vertices.push(v);
            vertices.len() - 1
        },
    }
}

impl<P: Copy> IndexedTriangles<P> {
    /// Builds a mesh from a triangle soup, merging corners that `near` accepts as
    /// the same point. Corners are taken triangle by triangle; each takes the
    /// first existing vertex that `near(corner, vertex)` accepts, or else is
    /// appended as a new vertex.
    pub fn from_triangles<F: Fn(P, P) -> bool>(soup: &Triangles<P>, near: F) -> (r: Self)
        requires
            forall|a: P, b: P| near.requires((a, b)),
            3 * soup@.len() < usize::MAX,
        ensures
            r.wf(),
            welded(near, soup@, r),
    {
        let mut vertices: Vec<P> = Vec::new();
        let mut triangles: Vec<[usize; 3]> = Vec::new();
        let ghost corners: Seq<P> = Seq::empty();
        let ghost idx: Seq<usize> = Seq::empty();
        let n = soup.len();
        let mut t: usize = 0;
        while t < n
            invariant
                n == soup@.len(),
                3 * n < usize::MAX,
                forall|a: P, b: P| near.requires((a, b)),
                t <= n,
                triangles@.len() == t,
                corners == soup_corners(soup@.take(t as int)),
                idx == flat_indices(triangles@),
                corners.len() == 3 * t,
                weld_ok(near, corners, vertices@, idx),
                vertices@.len() <= 3 * t,
                indices_valid(triangles@, vertices@.len()),
            decreases n - t,
        {
            let tri = soup.get(t);
            let ghost v0 = vertices@;
            let i0 = weld_corner(&mut vertices, tri.point(0), &near);
            proof {
                lemma_weld_extend(near, corners, v0, idx, pick(tri@, 0), i0, vertices@);
            }
            let ghost v1 = vertices@;
            let i1 = weld_corner(&mut vertices, tri.point(1), &near);
            proof {
                lemma_weld_extend(
                    near,
                    corners.push(pick(tri@, 0)),
                    v1,
                    idx.push(i0),
                    pick(tri@, 1),
                    i1,
                    vertices@,
                );
            }
            let ghost v2 = vertices@;
            let i2 = weld_corner(&mut vertices, tri.point(2), &near);
            proof {
                lemma_weld_extend(
                    near,
                    corners.push(pick(tri@, 0)).push(pick(tri@, 1)),
                    v2,
                    idx.push(i0).push(i1),
                    pick(tri@, 2),
                    i2,
                    vertices@,
                );
            }
            let ghost old_tris = triangles@;
            let new_tri: [usize; 3] = [i0, i1, i2];
            triangles.push(new_tri);
            proof {
                let s1 = soup@.take(t + 1);
                assert(s1.drop_last() =~= soup@.take(t as int));
                assert(s1.last() == tri@);
                corners = corners.push(pick(tri@, 0)).push(pick(tri@, 1)).push(pick(tri@, 2));
                assert(corners =~= soup_corners(s1));
                assert(triangles@.drop_last() =~= old_tris);
                idx = idx.push(i0).push(i1).push(i2);
                assert(idx =~= flat_indices(triangles@));
                assert forall|u: int, c: int| 0 <= u < triangles@.len() && 0 <= c < 3 implies (
                #[trigger] triangles@[u][c]) < vertices@.len() by {
                    if u < old_tris.len() {
                        assert(triangles@[u] == old_tris[u]);
                    }
                }
            }
            t = t + 1;
        }
        assert(soup@.take(n as int) =~= soup@);
        IndexedTriangles::new(vertices, triangles)
    }
}

proof fn lemma_soup_corners_index<P>(s: Seq<(P, P, P)>)
    ensures
        soup_corners(s).len() == 3 * s.len(),
        forall|t: int, c: int|
            0 <= t < s.len() && 0 <= c < 3 ==> #[trigger] soup_corners(s)[3 * t + c] == pick(s[t], c),
    decreases s.len(),
{
    if s.len() > 0 {
        let d = s.drop_last();
        lemma_soup_corners_index(d);
        assert forall|t: int, c: int| 0 <= t < s.len() && 0 <= c < 3 implies #[trigger] soup_corners(
            s,
        )[3 * t + c] == pick(s[t], c) by {
            if t < d.len() {
                assert(soup_corners(d)[3 * t + c] == pick(d[t], c));
            }
        }
    }
}

proof fn lemma_flat_indices_index(tris: Seq<[usize; 3]>)
    ensures
        flat_indices(tris).len() == 3 * tris.len(),
        forall|t: int, c: int|
            0 <= t < tris.len() && 0 <= c < 3 ==> #[trigger] flat_indices(tris)[3 * t + c] == tris[t][c],
    decreases tris.len(),
{
    if tris.len() > 0 {
        let d = tris.drop_last();
        lemma_flat_indices_index(d);
        assert forall|t: int, c: int| 0 <= t < tris.len() && 0 <= c < 3 implies #[trigger] flat_indices(
            tris,
        )[3 * t + c] == tris[t][c] by {
            if t < d.len() {
                assert(flat_indices(d)[3 * t + c] == d[t][c]);
            }
        }
    }
}

/// The corners of a mesh's soup are its vertices, read through its indices.
proof fn lemma_soup_corners_of_mesh<P>(m: IndexedTriangles<P>)
    ensures
        soup_corners(m.soup()).len() == flat_indices(m.tris()).len(),
        forall|k: int|
            0 <= k < soup_corners(m.soup()).len() ==> #[trigger] soup_corners(m.soup())[k]
                == m.verts()[flat_indices(m.tris())[k] as int],
{
    lemma_soup_corners_index(m.soup());
    lemma_flat_indices_index(m.tris());
    assert forall|k: int| 0 <= k < soup_corners(m.soup()).len() implies #[trigger] soup_corners(
        m.soup(),
    )[k] == m.verts()[flat_indices(m.tris())[k] as int] by {
        let t = k / 3;
        let c = k % 3;
        assert(k == 3 * t + c);
        assert(soup_corners(m.soup())[3 * t + c] == pick(m.soup()[t], c));
        assert(flat_indices(m.tris())[3 * t + c] == m.tris()[t][c]);
    }
}

/// Each vertex below `created(idx, k)` was created by some corner before `k`.
proof fn lemma_created_witness(idx: Seq<usize>, k: int, i: int)
    requires
        0 <= i < created(idx, k),
    ensures
        exists|k0: int| 0 <= k0 < k && idx[k0] == i && created(idx, k0) == i,
    decreases k,
{
    if k > 0 {
        if i < created(idx, k - 1) {
            lemma_created_witness(idx, k - 1, i);
            let k0 = choose|k0: int| 0 <= k0 < k - 1 && idx[k0] == i && created(idx, k0) == i;
            assert(0 <= k0 < k && idx[k0] == i && created(idx, k0) == i);
        } else {
            assert(idx[k - 1] == i && created(idx, k - 1) == i);
        }
    }
}

proof fn lemma_created_agree(a: Seq<usize>, b: Seq<usize>, k: int)
    requires
        forall|j: int| 0 <= j < k ==> a[j] == b[j],
    ensures
        created(a, k) == created(b, k),
    decreases k,
{
    if k > 0 {
        lemma_created_agree(a, b, k - 1);
    }
}

/// Under agreement of the first `k` indices, vertex `j` created before `k` is
/// the same in both meshes, and `near` rejected it against every earlier vertex.
proof fn lemma_vertex_origin<P, F: Fn(P, P) -> bool>(
    near: F,
    c1: Seq<P>,
    v1: Seq<P>,
    i1: Seq<usize>,
    c2: Seq<P>,
    v2: Seq<P>,
    i2: Seq<usize>,
    k: int,
    j: int,
)
    requires
        weld_ok(near, c1, v1, i1),
        weld_ok(near, c2, v2, i2),
        c1.len() == c2.len(),
        forall|q: int| 0 <= q < c2.len() ==> #[trigger] c2[q] == v1[i1[q] as int],
        0 <= k <= c1.len(),
        forall|q: int| 0 <= q < k ==> i1[q] == i2[q],
        0 <= j < created(i1, k),
    ensures
        v2[j] == v1[j],
        forall|jj: int| 0 <= jj < j ==> near.ensures((v1[j], v1[jj]), false),
{
    lemma_created_witness(i1, k, j);
    let k0 = choose|k0: int| 0 <= k0 < k && i1[k0] == j && created(i1, k0) == j;
    lemma_created_agree(i1, i2, k0);
    assert(weld_step(near, c1, v1, i1, k0));
    assert(weld_step(near, c2, v2, i2, k0));
    assert(c2[k0] == v1[i1[k0] as int]);
}

proof fn lemma_weld_agree<P, F: Fn(P, P) -> bool>(
    near: F,
    c1: Seq<P>,
    v1: Seq<P>,
    i1: Seq<usize>,
    c2: Seq<P>,
    v2: Seq<P>,
    i2: Seq<usize>,
    k: int,
)
    requires
        forall|a: P, b: P, x: bool, y: bool|
            near.ensures((a, b), x) && near.ensures((a, b), y) ==> x == y,
        forall|a: P, x: bool| near.ensures((a, a), x) ==> x,
        weld_ok(near, c1, v1, i1),
        weld_ok(near, c2, v2, i2),
        c1.len() == c2.len(),
        forall|q: int| 0 <= q < c2.len() ==> #[trigger] c2[q] == v1[i1[q] as int],
        0 <= k <= c1.len(),
    ensures
        forall|q: int| 0 <= q < k ==> i1[q] == i2[q],
    decreases k,
{
    if k > 0 {
        let K = k - 1;
        lemma_weld_agree(near, c1, v1, i1, c2, v2, i2, K);
        lemma_created_agree(i1, i2, K);
        let l = created(i1, K);
        assert(weld_step(near, c1, v1, i1, K));
        assert(weld_step(near, c2, v2, i2, K));
        let a = i1[K] as int;
        let b = i2[K] as int;
        assert(c2[K] == v1[a]);
        if a == l {
            if b < l {
                lemma_vertex_origin(near, c1, v1, i1, c2, v2, i2, K, b);
                assert(near.ensures((c1[K], v1[b]), false));
                assert(near.ensures((c1[K], v1[b]), true));
            }
        } else {
            lemma_vertex_origin(near, c1, v1, i1, c2, v2, i2, K, a);
            if b > a {
                assert(near.ensures((c2[K], v2[a]), false));
            } else if b < a {
                lemma_vertex_origin(near, c1, v1, i1, c2, v2, i2, K, b);
                assert(near.ensures((v1[a], v1[b]), false));
                assert(near.ensures((c2[K], v2[b]), true));
            }
        }
        assert(i1[K] == i2[K]);
    }
}

/// The weld invariant: in a welded mesh, `near` rejected each vertex against
/// every vertex before it, so no two vertices were taken as the same point.
pub proof fn lemma_welded_vertices_apart<P, F: Fn(P, P) -> bool>(
    near: F,
    soup: Seq<(P, P, P)>,
    m: IndexedTriangles<P>,
    i: int,
    j: int,
)
    requires
        welded(near, soup, m),
        0 <= j < i < m.verts().len(),
    ensures
        near.ensures((m.verts()[i], m.verts()[j]), false),
{
    let c = soup_corners(soup);
    let idx = flat_indices(m.tris());
    lemma_created_witness(idx, c.len() as int, i);
    let k0 = choose|k0: int| 0 <= k0 < c.len() && idx[k0] == i && created(idx, k0) == i;
    assert(weld_step(near, c, m.verts(), idx, k0));
}

/// Welding is stable: turning a welded mesh back into a soup and welding that
/// again gives the same mesh, hence the same vertex count and the same boundary
/// edges. This holds for a `near` that answers alike whenever asked about the
/// same two points and accepts every point as near itself.
pub proof fn lemma_weld_round_trip<P, F: Fn(P, P) -> bool>(
    near: F,
    soup: Seq<(P, P, P)>,
    m1: IndexedTriangles<P>,
    m2: IndexedTriangles<P>,
)
    requires
        forall|a: P, b: P, x: bool, y: bool|
            near.ensures((a, b), x) && near.ensures((a, b), y) ==> x == y,
        forall|a: P, x: bool| near.ensures((a, a), x) ==> x,
        welded(near, soup, m1),
        welded(near, m1.soup(), m2),
    ensures
        m2.verts() == m1.verts(),
        m2.tris() == m1.tris(),
        boundary_edges(m2.tris()) == boundary_edges(m1.tris()),
{
    let c1 = soup_corners(soup);
    let v1 = m1.verts();
    let i1 = flat_indices(m1.tris());
    let c2 = soup_corners(m1.soup());
    let v2 = m2.verts();
    let i2 = flat_indices(m2.tris());
    lemma_soup_corners_of_mesh(m1);
    lemma_weld_agree(near, c1, v1, i1, c2, v2, i2, c1.len() as int);
    assert(i1 =~= i2);
    lemma_created_agree(i1, i2, c1.len() as int);
    assert forall|j: int| 0 <= j < v1.len() implies v2[j] == v1[j] by {
        lemma_vertex_origin(near, c1, v1, i1, c2, v2, i2, c1.len() as int, j);
    }
    assert(v2 =~= v1);
    lemma_flat_indices_index(m1.tris());
    lemma_flat_indices_index(m2.tris());
    assert forall|t: int| 0 <= t < m1.tris().len() implies m2.tris()[t] == m1.tris()[t] by {
        assert(m2.tris()[t][0] == i2[3 * t + 0]);
        assert(m2.tris()[t][1] == i2[3 * t + 1]);
        assert(m2.tris()[t][2] == i2[3 * t + 2]);
        assert(m1.tris()[t][0] == i1[3 * t + 0]);
        assert(m1.tris()[t][1] == i1[3 * t + 1]);
        assert(m1.tris()[t][2] == i1[3 * t + 2]);
        assert(m2.tris()[t]@ =~= m1.tris()[t]@);
    }
    assert(m2.tris() =~= m1.tris());
}

} // verus!
