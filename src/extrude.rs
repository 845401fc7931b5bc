use vstd::prelude::*;

use crate::edges::{boundary_edges, lemma_boundary_edges_valid, outer_edge_list};
use crate::mesh::{indices_valid, IndexedTriangles};

verus! {

impl<P: Copy> IndexedTriangles<P> {
    /// Lifts a flat mesh into a solid. Vertex `i` appears twice: as `top(v)` at
    /// index `i` and as `bottom(v)` at index `i + n`, with `n` the vertex count.
    /// The triangles are the top cap (the source triangles as they are), the
    /// bottom cap (each source triangle with its last two corners swapped, so it
    /// faces the other way), and for each boundary edge `(a, b)`, in the order of
    /// `outer_edge_indices`, the wall `[a, a + n, b]`, `[b + n, b, a + n]`.
    pub fn extrude_linear<Q: Copy, F: Fn(P) -> Q, G: Fn(P) -> Q>(&self, top: F, bottom: G) -> (r:
        IndexedTriangles<Q>)
        requires
            2 * self.verts().len() <= usize::MAX,
            forall|i: int|
                0 <= i < self.verts().len() ==> top.requires((#[trigger] self.verts()[i],))
                    && bottom.requires((self.verts()[i],)),
        ensures
            r.wf(),
            r.verts().len() == 2 * self.verts().len(),
            forall|i: int|
                0 <= i < self.verts().len() ==> top.ensures((self.verts()[i],), #[trigger] r.verts()[i]),
            forall|u: int|
                self.verts().len() <= u < 2 * self.verts().len() ==> bottom.ensures(
                    (self.verts()[u - self.verts().len()],),
                    #[trigger] r.verts()[u],
                ),
            r.tris().len() == 2 * self.tris().len() + 2 * outer_edge_list(self.tris()).len(),
            outer_edge_list(self.tris()).len() == boundary_edges(self.tris()).len(),
            forall|t: int| 0 <= t < self.tris().len() ==> #[trigger] r.tris()[t] == self.tris()[t],
            forall|u: int|
                self.tris().len() <= u < 2 * self.tris().len() ==> {
                    let t = u - self.tris().len();
                    let n = self.verts().len();
                    &&& (#[trigger] r.tris()[u])[0] == self.tris()[t][0] + n
                    &&& r.tris()[u][1] == self.tris()[t][2] + n
                    &&& r.tris()[u][2] == self.tris()[t][1] + n
                },
            forall|e: int|
                0 <= e < outer_edge_list(self.tris()).len() ==> {
                    let (a, b) = #[trigger] outer_edge_list(self.tris())[e];
                    let n = self.verts().len();
                    let w = 2 * self.tris().len() + 2 * e;
                    &&& r.tris()[w][0] == a
                    &&& r.tris()[w][1] == a + n
                    &&& r.tris()[w][2] == b
                    &&& r.tris()[w + 1][0] == b + n
                    &&& r.tris()[w + 1][1] == b
                    &&& r.tris()[w + 1][2] == a + n
                },
    {
        proof {
            use_type_invariant(self);
            lemma_boundary_edges_valid(self.tris(), self.verts().len());
        }
        let src = self.vertices();
        let tris = self.triangles();
        let n = src.len();
        let tt = tris.len();
        let mut vertices: Vec<Q> = Vec::new();
        let mut i: usize = 0;
        while i < n
            invariant
                src@ == self.verts(),
                n == src@.len(),
                i <= n,
                vertices@.len() == i,
                forall|k: int|
                    0 <= k < n ==> top.requires((#[trigger] src@[k],)) && bottom.requires((src@[k],)),
                forall|k: int| 0 <= k < i ==> top.ensures((src@[k],), #[trigger] vertices@[k]),
            decreases n - i,
        {
            let v = top(src[i]);
            vertices.push(v);
            i = i + 1;
        }
        let mut i: usize = 0;
        while i < n
            invariant
                src@ == self.verts(),
                n == src@.len(),
                i <= n,
                vertices@.len() == n + i,
                forall|k: int|
                    0 <= k < n ==> top.requires((#[trigger] src@[k],)) && bottom.requires((src@[k],)),
                forall|k: int| 0 <= k < n ==> top.ensures((src@[k],), #[trigger] vertices@[k]),
                forall|u: int| n <= u < n + i ==> bottom.ensures((src@[u - n],), #[trigger] vertices@[u]),
            decreases n - i,
        {
            let v = bottom(src[i]);
            vertices.push(v);
            i = i + 1;
        }
        let mut triangles: Vec<[usize; 3]> = Vec::new();
        let mut t: usize = 0;
        while t < tt
            invariant
                tris@ == self.tris(),
                tt == tris@.len(),
                indices_valid(tris@, n as nat),
                t <= tt,
                triangles@.len() == t,
                forall|u: int| 0 <= u < t ==> #[trigger] triangles@[u] == tris@[u],
            decreases tt - t,
        {
            triangles.push(tris[t]);
            t = t + 1;
        }
        let mut bottoms: Vec<[usize; 3]> = Vec::new();
        let mut t: usize = 0;
        while t < tt
            invariant
                tris@ == self.tris(),
                tt == tris@.len(),
                2 * n <= usize::MAX,
                indices_valid(tris@, n as nat),
                t <= tt,
                bottoms@.len() == t,
                forall|u: int|
                    0 <= u < t ==> {
                        &&& #[trigger] bottoms@[u][0] == tris@[u][0] + n
                        &&& bottoms@[u][1] == tris@[u][2] + n
                        &&& bottoms@[u][2] == tris@[u][1] + n
                    },
                forall|u: int, c: int| 0 <= u < t && 0 <= c < 3 ==> #[trigger] bottoms@[u][c] < 2 * n,
            decreases tt - t,
        {
            let s = tris[t];
            assert(s[0] < n && s[1] < n && s[2] < n);
            let flipped: [usize; 3] = [s[0] + n, s[2] + n, s[1] + n];
            bottoms.push(flipped);
            t = t + 1;
        }
        let edges = self.outer_edge_indices();
        let mut walls: Vec<[usize; 3]> = Vec::new();
        let mut e: usize = 0;
        while e < edges.len()
            invariant
                2 * n <= usize::MAX,
                n == self.verts().len(),
                edges@ == outer_edge_list(self.tris()),
                edges@.to_set() == boundary_edges(self.tris()),
                forall|x: (usize, usize)|
                    #[trigger] boundary_edges(self.tris()).contains(x) ==> x.0 < n && x.1 < n,
                e <= edges@.len(),
                walls@.len() == 2 * e,
                forall|k: int|
                    0 <= k < e ==> {
                        &&& #[trigger] walls@[2 * k][0] == edges@[k].0
                        &&& walls@[2 * k][1] == edges@[k].0 + n
                        &&& walls@[2 * k][2] == edges@[k].1
                        &&& walls@[2 * k + 1][0] == edges@[k].1 + n
                        &&& walls@[2 * k + 1][1] == edges@[k].1
                        &&& walls@[2 * k + 1][2] == edges@[k].0 + n
                    },
                forall|u: int, c: int| 0 <= u < 2 * e && 0 <= c < 3 ==> #[trigger] walls@[u][c] < 2 * n,
            decreases edges@.len() - e,
        {
            let (a, b) = edges[e];
            assert(edges@.to_set().contains(edges@[e as int]));
            let wall_top: [usize; 3] = [a, a + n, b];
            let wall_bottom: [usize; 3] = [b + n, b, a + n];
            walls.push(wall_top);
            walls.push(wall_bottom);
            e = e + 1;
        }
        let ghost caps = triangles@;
        let ghost flipped = bottoms@;
        let ghost sides = walls@;
        triangles.append(&mut bottoms);
        triangles.append(&mut walls);
        proof {
            assert(triangles@ == caps + flipped + sides);
            assert forall|u: int, c: int| 0 <= u < triangles@.len() && 0 <= c < 3 implies (
            #[trigger] triangles@[u][c]) < vertices@.len() by {
                if u < tt {
                    assert(triangles@[u] == tris@[u]);
                    assert(tris@[u][c] < n);
                } else if u < 2 * tt {
                    assert(triangles@[u] == flipped[u - tt]);
                    assert(flipped[u - tt][c] < 2 * n);
                } else {
                    assert(triangles@[u] == sides[u - 2 * tt]);
                    assert(sides[u - 2 * tt][c] < 2 * n);
                }
            }
            assert forall|u: int| tt <= u < 2 * tt implies {
                &&& (#[trigger] triangles@[u])[0] == tris@[u - tt][0] + n
                &&& triangles@[u][1] == tris@[u - tt][2] + n
                &&& triangles@[u][2] == tris@[u - tt][1] + n
            } by {
                let t = u - tt;
                assert(triangles@[u] == flipped[t]);
                assert(flipped[t][0] == tris@[t][0] + n);
            }
            assert forall|k: int| 0 <= k < edges@.len() implies {
                &&& triangles@[2 * tt + 2 * k][0] == (#[trigger] edges@[k]).0
                &&& triangles@[2 * tt + 2 * k][1] == edges@[k].0 + n
                &&& triangles@[2 * tt + 2 * k][2] == edges@[k].1
                &&& triangles@[2 * tt + 2 * k + 1][0] == edges@[k].1 + n
                &&& triangles@[2 * tt + 2 * k + 1][1] == edges@[k].1
                &&& triangles@[2 * tt + 2 * k + 1][2] == edges@[k].0 + n
            } by {
                assert(caps.len() == tt && flipped.len() == tt);
                assert(triangles@[2 * tt + 2 * k] == sides[2 * k]);
                assert(triangles@[2 * tt + 2 * k + 1] == sides[2 * k + 1]);
                assert(sides[2 * k][0] == edges@[k].0);
            }
        }
        IndexedTriangles::new(vertices, triangles)
    }
}

} // verus!
