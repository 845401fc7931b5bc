use vstd::prelude::*;

use std::collections::BTreeSet;
use vstd::laws_cmp::obeys_cmp;
use vstd::std_specs::btree::increasing_seq;
use vstd::std_specs::cmp::OrdSpec;
use vstd::std_specs::iter::IteratorSpec;

use crate::mesh::{indices_valid, IndexedTriangles};

verus! {

/// The three directed edges of a triangle: (0,1), (1,2), (2,0).
pub open spec fn triangle_edges(t: [usize; 3]) -> Seq<(usize, usize)> {
    seq![(t[0], t[1]), (t[1], t[2]), (t[2], t[0])]
}

/// The directed edges of all triangles, triangle by triangle.
pub open spec fn directed_edges(tris: Seq<[usize; 3]>) -> Seq<(usize, usize)>
    decreases tris.len(),
{
    if tris.len() == 0 {
        Seq::empty()
    } else {
        directed_edges(tris.drop_last()) + triangle_edges(tris.last())
    }
}

/// One step of the parity scan: an edge already present in either direction is
/// removed in both directions, otherwise it is added as given.
pub open spec fn parity_step(s: Set<(usize, usize)>, e: (usize, usize)) -> Set<(usize, usize)> {
    if s.contains((e.0, e.1)) || s.contains((e.1, e.0)) {
        s.remove((e.0, e.1)).remove((e.1, e.0))
    } else {
        s.insert((e.0, e.1))
    }
}

/// The edges left after scanning `edges` in order with `parity_step`.
pub open spec fn parity_set(edges: Seq<(usize, usize)>) -> Set<(usize, usize)>
    decreases edges.len(),
{
    if edges.len() == 0 {
        Set::empty()
    } else {
        parity_step(parity_set(edges.drop_last()), edges.last())
    }
}

/// Lexicographic order on index pairs.
pub open spec fn pair_less(x: (usize, usize), y: (usize, usize)) -> bool {
    x.0 < y.0 || (x.0 == y.0 && x.1 < y.1)
}

/// Strictly increasing in lexicographic order.
pub open spec fn strictly_sorted(s: Seq<(usize, usize)>) -> bool {
    forall|i: int, j: int| 0 <= i < j < s.len() ==> pair_less(#[trigger] s[i], #[trigger] s[j])
}

/// The boundary edges of a mesh: the parity set of its directed edges.
pub open spec fn boundary_edges(tris: Seq<[usize; 3]>) -> Set<(usize, usize)> {
    parity_set(directed_edges(tris))
}

proof fn lemma_parity_push(s: Seq<(usize, usize)>, e: (usize, usize))
    ensures
        parity_set(s.push(e)) == parity_step(parity_set(s), e),
{
    assert(s.push(e).drop_last() =~= s);
}

/// Whether the directed edge `e` joins `a` and `b`, in either direction.
pub open spec fn joins(e: (usize, usize), a: usize, b: usize) -> bool {
    (e.0 == a && e.1 == b) || (e.0 == b && e.1 == a)
}

/// How many of `edges` join `a` and `b`, in either direction.
pub open spec fn edge_count(edges: Seq<(usize, usize)>, a: usize, b: usize) -> nat
    decreases edges.len(),
{
    if edges.len() == 0 {
        0
    } else {
        edge_count(edges.drop_last(), a, b) + if joins(edges.last(), a, b) {
            1nat
        } else {
            0nat
        }
    }
}

/// The sorted list of boundary edges: the strictly increasing sequence whose
/// elements are `boundary_edges(tris)`.
pub open spec fn outer_edge_list(tris: Seq<[usize; 3]>) -> Seq<(usize, usize)> {
    choose|s: Seq<(usize, usize)>| s.to_set() == boundary_edges(tris) && strictly_sorted(s)
}

/// Two strictly increasing sequences with the same elements are equal.
pub proof fn lemma_sorted_unique(s1: Seq<(usize, usize)>, s2: Seq<(usize, usize)>)
    requires
        strictly_sorted(s1),
        strictly_sorted(s2),
        s1.to_set() == s2.to_set(),
    ensures
        s1 == s2,
    decreases s1.len() + s2.len(),
{
    if s1.len() == 0 || s2.len() == 0 {
        if s1.len() != 0 {
            assert(s1.to_set().contains(s1[0]));
        }
        if s2.len() != 0 {
            assert(s2.to_set().contains(s2[0]));
        }
        assert(s1 =~= s2);
    } else {
        assert(s1.to_set().contains(s1[0]));
        assert(s2.to_set().contains(s2[0]));
        let m1 = choose|m: int| 0 <= m < s2.len() && s2[m] == s1[0];
        let m2 = choose|m: int| 0 <= m < s1.len() && s1[m] == s2[0];
        if m1 > 0 {
            assert(pair_less(s2[0], s2[m1]));
            if m2 > 0 {
                assert(pair_less(s1[0], s1[m2]));
            }
        }
        assert(s1[0] == s2[0]);
        let t1 = s1.drop_first();
        let t2 = s2.drop_first();
        assert forall|x: (usize, usize)| t1.to_set().contains(x) implies t2.to_set().contains(x) by {
            let k = choose|k: int| 0 <= k < t1.len() && t1[k] == x;
            assert(s1[k + 1] == x);
            assert(pair_less(s1[0], x));
            assert(s2.to_set().contains(x));
            let k2 = choose|k2: int| 0 <= k2 < s2.len() && s2[k2] == x;
            assert(k2 != 0);
            assert(t2[k2 - 1] == x);
        }
        assert forall|x: (usize, usize)| t2.to_set().contains(x) implies t1.to_set().contains(x) by {
            let k = choose|k: int| 0 <= k < t2.len() && t2[k] == x;
            assert(s2[k + 1] == x);
            assert(pair_less(s2[0], x));
            assert(s1.to_set().contains(x));
            let k1 = choose|k1: int| 0 <= k1 < s1.len() && s1[k1] == x;
            assert(k1 != 0);
            assert(t1[k1 - 1] == x);
        }
        assert(t1.to_set() =~= t2.to_set());
        assert(strictly_sorted(t1)) by {
            assert forall|i: int, j: int| 0 <= i < j < t1.len() implies pair_less(
                #[trigger] t1[i],
                #[trigger] t1[j],
            ) by {
                assert(t1[i] == s1[i + 1] && t1[j] == s1[j + 1]);
            }
        }
        assert(strictly_sorted(t2)) by {
            assert forall|i: int, j: int| 0 <= i < j < t2.len() implies pair_less(
                #[trigger] t2[i],
                #[trigger] t2[j],
            ) by {
                assert(t2[i] == s2[i + 1] && t2[j] == s2[j + 1]);
            }
        }
        lemma_sorted_unique(t1, t2);
        assert(t1.len() == t2.len());
        assert(s1.len() == t1.len() + 1);
        assert(s2.len() == t2.len() + 1);
        assert(s1 =~= s2) by {
            assert forall|k: int| 0 <= k < s1.len() implies s1[k] == s2[k] by {
                if k > 0 {
                    assert(s1[k] == t1[k - 1]);
                    assert(s2[k] == t2[k - 1]);
                }
            }
        }
    }
}

/// Every edge left by the parity scan is one of the scanned edges.
pub proof fn lemma_parity_set_from_edges(edges: Seq<(usize, usize)>, x: (usize, usize))
    requires
        parity_set(edges).contains(x),
    ensures
        edges.contains(x),
    decreases edges.len(),
{
    let d = edges.drop_last();
    if parity_set(d).contains(x) {
        lemma_parity_set_from_edges(d, x);
        let k = choose|k: int| 0 <= k < d.len() && d[k] == x;
        assert(edges[k] == x);
    } else {
        assert(edges[edges.len() - 1] == x);
    }
}

/// The edge `(a, b)` is left by the parity scan, in one direction or the other,
/// exactly when an odd number of the scanned edges join `a` and `b`.
pub proof fn lemma_parity_set_counts(edges: Seq<(usize, usize)>, a: usize, b: usize)
    ensures
        (parity_set(edges).contains((a, b)) || parity_set(edges).contains((b, a)))
            <==> edge_count(edges, a, b) % 2 == 1,
    decreases edges.len(),
{
    if edges.len() > 0 {
        lemma_parity_set_counts(edges.drop_last(), a, b);
    }
}

/// The directed edges of valid triangles name only existing vertices.
pub proof fn lemma_directed_edges_valid(tris: Seq<[usize; 3]>, n: nat)
    requires
        indices_valid(tris, n),
    ensures
        forall|k: int|
            0 <= k < directed_edges(tris).len() ==> (#[trigger] directed_edges(tris)[k]).0 < n
                && directed_edges(tris)[k].1 < n,
    decreases tris.len(),
{
    if tris.len() > 0 {
        let d = tris.drop_last();
        assert(indices_valid(d, n)) by {
            assert forall|t: int, c: int| 0 <= t < d.len() && 0 <= c < 3 implies (#[trigger] d[t][c])
                < n by {
                assert(d[t] == tris[t]);
            }
        }
        lemma_directed_edges_valid(d, n);
        let t = tris.last();
        assert(t == tris[tris.len() - 1]);
        assert(t[0] < n && t[1] < n && t[2] < n);
        let es = directed_edges(tris);
        assert forall|k: int| 0 <= k < es.len() implies (#[trigger] es[k]).0 < n && es[k].1 < n by {
            if k < directed_edges(d).len() {
                assert(es[k] == directed_edges(d)[k]);
            }
        }
    }
}

/// The boundary edges of valid triangles name only existing vertices.
pub proof fn lemma_boundary_edges_valid(tris: Seq<[usize; 3]>, n: nat)
    requires
        indices_valid(tris, n),
    ensures
        forall|x: (usize, usize)| #[trigger] boundary_edges(tris).contains(x) ==> x.0 < n && x.1 < n,
{
    lemma_directed_edges_valid(tris, n);
    assert forall|x: (usize, usize)| #[trigger] boundary_edges(tris).contains(x) implies x.0 < n && x.1
        < n by {
        lemma_parity_set_from_edges(directed_edges(tris), x);
    }
}

/// A closed surface, where each edge is shared by two triangles (or, more
/// generally, used an even number of times), has no boundary edge.
pub proof fn lemma_closed_mesh_has_no_boundary(tris: Seq<[usize; 3]>)
    requires
        forall|a: usize, b: usize| #[trigger] edge_count(directed_edges(tris), a, b) % 2 == 0,
    ensures
        boundary_edges(tris) == Set::<(usize, usize)>::empty(),
{
    assert forall|x: (usize, usize)| !boundary_edges(tris).contains(x) by {
        lemma_parity_set_counts(directed_edges(tris), x.0, x.1);
        assert(edge_count(directed_edges(tris), x.0, x.1) % 2 == 0);
    }
    assert(boundary_edges(tris) =~= Set::<(usize, usize)>::empty());
}

/// The two end points of an edge.
pub open spec fn edge_points<P>(vs: Seq<P>, e: (usize, usize)) -> (P, P) {
    (vs[e.0 as int], vs[e.1 as int])
}

/// The end points of each edge of `es`, in order.
pub open spec fn points_of<P>(vs: Seq<P>, es: Seq<(usize, usize)>) -> Seq<(P, P)> {
    es.map_values(|e: (usize, usize)| edge_points(vs, e))
}

proof fn lemma_points_of_step<P>(vs: Seq<P>, a: usize, b: usize)
    ensures
        points_of(vs, forward_step(a, b)) == if a < b {
            seq![(vs[a as int], vs[b as int])]
        } else {
            Seq::empty()
        },
{
    if a < b {
        assert(points_of(vs, forward_step(a, b)) =~= seq![(vs[a as int], vs[b as int])]);
    } else {
        assert(points_of(vs, forward_step(a, b)) =~= Seq::empty());
    }
}

/// The edge `(a, b)` if it runs from a lower to a higher index, else nothing.
pub open spec fn forward_step(a: usize, b: usize) -> Seq<(usize, usize)> {
    if a < b {
        seq![(a, b)]
    } else {
        Seq::empty()
    }
}

/// The edges of triangle `t` that run from a lower to a higher index, in the
/// order (0,1), (1,2), (2,0).
pub open spec fn forward_of(t: [usize; 3]) -> Seq<(usize, usize)> {
    forward_step(t[0], t[1]) + forward_step(t[1], t[2]) + forward_step(t[2], t[0])
}

/// The forward edges of all triangles, triangle by triangle.
pub open spec fn forward_edges(tris: Seq<[usize; 3]>) -> Seq<(usize, usize)>
    decreases tris.len(),
{
    if tris.len() == 0 {
        Seq::empty()
    } else {
        forward_edges(tris.drop_last()) + forward_of(tris.last())
    }
}

fn toggle_edge(edges: &mut BTreeSet<(usize, usize)>, a: usize, b: usize)
    ensures
        final(edges)@ == parity_step(old(edges)@, (a, b)),
{
    if edges.contains(&(a, b)) || edges.contains(&(b, a)) {
        edges.remove(&(a, b));
        edges.remove(&(b, a));
    } else {
        edges.insert((a, b));
    }
}

impl<P: Copy> IndexedTriangles<P> {
    /// The vertex pairs of `outer_edge_indices`, in the same order.
    pub fn outer_edges(&self) -> (r: Vec<(P, P)>)
        ensures
            r@ == points_of(self.verts(), outer_edge_list(self.tris())),
    {
        proof {
            use_type_invariant(self);
            lemma_boundary_edges_valid(self.tris(), self.verts().len());
        }
        let indices = self.outer_edge_indices();
        let vertices = self.vertices();
        let mut edges: Vec<(P, P)> = Vec::new();
        let mut k: usize = 0;
        while k < indices.len()
            invariant
                indices@ == outer_edge_list(self.tris()),
                indices@.to_set() == boundary_edges(self.tris()),
                vertices@ == self.verts(),
                forall|x: (usize, usize)|
                    #[trigger] boundary_edges(self.tris()).contains(x) ==> x.0 < vertices@.len()
                        && x.1 < vertices@.len(),
                k <= indices@.len(),
                edges@.len() == k,
                forall|j: int|
                    0 <= j < k ==> #[trigger] edges@[j] == (
                        vertices@[indices@[j].0 as int],
                        vertices@[indices@[j].1 as int],
                    ),
            decreases indices@.len() - k,
        {
            let (a, b) = indices[k];
            assert(indices@.to_set().contains(indices@[k as int]));
            edges.push((vertices[a], vertices[b]));
            k = k + 1;
        }
        assert(edges@ =~= points_of(self.verts(), outer_edge_list(self.tris())));
        edges
    }

    /// Every triangle edge that runs from a lower to a higher index, as a pair of
    /// points, triangle by triangle. An edge shared by two consistently wound
    /// triangles runs forward in exactly one of them, so a closed surface lists
    /// each of its edges once.
    pub fn as_manifold_edges(&self) -> (r: Vec<(P, P)>)
        ensures
            r@ == points_of(self.verts(), forward_edges(self.tris())),
    {
        proof {
            use_type_invariant(self);
        }
        let vertices = self.vertices();
        let tris = self.triangles();
        let ghost vs = self.verts();
        let mut edges: Vec<(P, P)> = Vec::new();
        let mut i: usize = 0;
        while i < tris.len()
            invariant
                vertices@ == vs,
                vs == self.verts(),
                tris@ == self.tris(),
                indices_valid(tris@, vertices@.len()),
                i <= tris@.len(),
                edges@ == points_of(vs, forward_edges(tris@.take(i as int))),
            decreases tris@.len() - i,
        {
            let t = tris[i];
            let (i0, i1, i2) = (t[0], t[1], t[2]);
            assert(i0 < vertices@.len() && i1 < vertices@.len() && i2 < vertices@.len());
            let ghost before = edges@;
            if i0 < i1 {
                edges.push((vertices[i0], vertices[i1]));
            }
            proof {
                lemma_points_of_step(vs, i0, i1);
            }
            let ghost e1 = edges@;
            if i1 < i2 {
                edges.push((vertices[i1], vertices[i2]));
            }
            proof {
                lemma_points_of_step(vs, i1, i2);
            }
            let ghost e2 = edges@;
            if i2 < i0 {
                edges.push((vertices[i2], vertices[i0]));
            }
            proof {
                lemma_points_of_step(vs, i2, i0);
                let p = tris@.take(i + 1);
                assert(p.drop_last() =~= tris@.take(i as int));
                assert(p.last() == t);
                let f01 = forward_step(i0, i1);
                let f12 = forward_step(i1, i2);
                let f20 = forward_step(i2, i0);
                assert(edges@ =~= before + points_of(vs, f01) + points_of(vs, f12) + points_of(vs, f20));
                assert(points_of(vs, forward_of(t)) =~= points_of(vs, f01) + points_of(vs, f12)
                    + points_of(vs, f20));
                assert(forward_edges(p) == forward_edges(tris@.take(i as int)) + forward_of(t));
                assert(points_of(vs, forward_edges(p)) =~= points_of(
                    vs,
                    forward_edges(tris@.take(i as int)),
                ) + points_of(vs, forward_of(t)));
            }
            i = i + 1;
        }
        assert(tris@.take(tris@.len() as int) =~= tris@);
        edges
    }

    /// The edges used by an odd number of triangles, each in the direction of its
    /// last use, in increasing lexicographic order. For a flat mesh these are its
    /// outlines and holes; for a solid, the edges that keep it from being closed.
    pub fn outer_edge_indices(&self) -> (r: Vec<(usize, usize)>)
        ensures
            r@.to_set() == boundary_edges(self.tris()),
            strictly_sorted(r@),
            r@ == outer_edge_list(self.tris()),
            r@.len() == boundary_edges(self.tris()).len(),
    {
        let mut edges: BTreeSet<(usize, usize)> = BTreeSet::new();
        let tris = self.triangles();
        let mut i: usize = 0;
        while i < tris.len()
            invariant
                tris@ == self.tris(),
                i <= tris@.len(),
                edges@ == parity_set(directed_edges(tris@.subrange(0, i as int))),
            decreases tris@.len() - i,
        {
            let t = tris[i];
            proof {
                let pre = tris@.subrange(0, i as int);
                let post = tris@.subrange(0, i + 1);
                assert(post.len() > 0);
                assert(post.drop_last() =~= pre);
                assert(post.last() == t);
                let d = directed_edges(pre);
                let d1 = d.push((t[0], t[1]));
                let d2 = d1.push((t[1], t[2]));
                let d3 = d2.push((t[2], t[0]));
                assert(directed_edges(post) =~= d3);
                lemma_parity_push(d, (t[0], t[1]));
                lemma_parity_push(d1, (t[1], t[2]));
                lemma_parity_push(d2, (t[2], t[0]));
            }
            toggle_edge(&mut edges, t[0], t[1]);
            toggle_edge(&mut edges, t[1], t[2]);
            toggle_edge(&mut edges, t[2], t[0]);
            i = i + 1;
        }
        assert(tris@.subrange(0, tris@.len() as int) =~= tris@);
        let mut out: Vec<(usize, usize)> = Vec::new();
        let iter = edges.iter();
        let ghost rem = iter.remaining();
        let ghost keys = rem.unref();
        proof {
            assert(keys.to_set() == edges@);
            assert(increasing_seq(iter.remaining()));
            assert(obeys_cmp::<usize>());
            assert(obeys_cmp::<(usize, usize)>());
            assert(obeys_cmp::<&(usize, usize)>());
        }
        for e in it: iter
            invariant
                out@.len() == it.index(),
                forall|k: int| 0 <= k < it.index() ==> out@[k] == *it.seq()[k],
        {
            out.push(*e);
        }
        assert(out@ =~= keys);
        assert forall|i: int, j: int| 0 <= i < j < keys.len() implies pair_less(
            #[trigger] keys[i],
            #[trigger] keys[j],
        ) by {
            assert(<&(usize, usize) as OrdSpec>::cmp_spec(&rem[i], &rem[j]) is Less);
        }
        proof {
            let l = outer_edge_list(self.tris());
            assert(l.to_set() == boundary_edges(self.tris()) && strictly_sorted(l));
            lemma_sorted_unique(out@, l);
            assert(out@.no_duplicates()) by {
                assert forall|i: int, j: int|
                    0 <= i < out@.len() && 0 <= j < out@.len() && i != j implies out@[i]
                        != out@[j] by {
                    if i < j {
                        assert(pair_less(out@[i], out@[j]));
                    } else {
                        assert(pair_less(out@[j], out@[i]));
                    }
                }
            }
            out@.unique_seq_to_set();
        }
        out
    }
}

} // verus!
