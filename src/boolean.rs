use vstd::prelude::*;

use crate::mesh::{is_concat, IndexedTriangles};

verus! {

/// The pieces that the crossings in `row` cut from edge `e` and the first `m`
/// edges of `b`: for each crossing point `p` with `b[j]`, the piece from the
/// start of `e` to `p` and the piece from `p` to the end of `b[j]`.
pub open spec fn row_pieces<P>(e: (P, P), b: Seq<(P, P)>, row: Seq<Option<P>>, m: int) -> Seq<(P, P)>
    decreases m,
{
    if m <= 0 {
        Seq::empty()
    } else {
        row_pieces(e, b, row, m - 1) + match row[m - 1] {
            Some(p) => seq![(e.0, p), (p, b[m - 1].1)],
            None => Seq::empty(),
        }
    }
}

/// The pieces cut by the crossings of the first `n` edges of `a`, row by row.
pub open spec fn crossing_pieces<P>(
    a: Seq<(P, P)>,
    b: Seq<(P, P)>,
    hits: Seq<Seq<Option<P>>>,
    n: int,
) -> Seq<(P, P)>
    decreases n,
{
    if n <= 0 {
        Seq::empty()
    } else {
        crossing_pieces(a, b, hits, n - 1) + row_pieces(a[n - 1], b, hits[n - 1], b.len() as int)
    }
}

/// Whether one of the first `m` entries of `row` is a crossing.
pub open spec fn row_hit<P>(row: Seq<Option<P>>, m: int) -> bool
    decreases m,
{
    m > 0 && (row_hit(row, m - 1) || row[m - 1] is Some)
}

/// Whether column `j` of one of the first `m` rows of `hits` is a crossing.
pub open spec fn column_hit<P>(hits: Seq<Seq<Option<P>>>, j: int, m: int) -> bool
    decreases m,
{
    m > 0 && (column_hit(hits, j, m - 1) || hits[m - 1][j] is Some)
}

/// The first `n` edges of `a` that cross no edge of `b`, in order.
pub open spec fn uncrossed_a<P>(a: Seq<(P, P)>, hits: Seq<Seq<Option<P>>>, nb: int, n: int) -> Seq<(P, P)>
    decreases n,
{
    if n <= 0 {
        Seq::empty()
    } else {
        uncrossed_a(a, hits, nb, n - 1) + if row_hit(hits[n - 1], nb) {
            Seq::empty()
        } else {
            seq![a[n - 1]]
        }
    }
}

/// The first `n` edges of `b` that cross no edge of `a`, in order.
pub open spec fn uncrossed_b<P>(b: Seq<(P, P)>, hits: Seq<Seq<Option<P>>>, na: int, n: int) -> Seq<(P, P)>
    decreases n,
{
    if n <= 0 {
        Seq::empty()
    } else {
        uncrossed_b(b, hits, na, n - 1) + if column_hit(hits, n - 1, na) {
            Seq::empty()
        } else {
            seq![b[n - 1]]
        }
    }
}

/// The edges that the union's outline is to be rebuilt from: the pieces cut at
/// every crossing, then the edges of `a`, then those of `b`, that cross nothing.
pub open spec fn split_outline<P>(a: Seq<(P, P)>, b: Seq<(P, P)>, hits: Seq<Seq<Option<P>>>) -> Seq<
    (P, P),
> {
    crossing_pieces(a, b, hits, a.len() as int) + uncrossed_a(a, hits, b.len() as int, a.len() as int)
        + uncrossed_b(b, hits, a.len() as int, b.len() as int)
}

/// `hits` has one row per edge of `a` and one entry per edge of `b` in each row.
pub open spec fn hits_shape<P>(hits: Seq<Seq<Option<P>>>, na: int, nb: int) -> bool {
    &&& hits.len() == na
    &&& forall|i: int| 0 <= i < na ==> (#[trigger] hits[i]).len() == nb
}

/// The plain view of a table of crossings.
pub open spec fn hits_view<P>(hits: Seq<Vec<Option<P>>>) -> Seq<Seq<Option<P>>> {
    hits.map_values(|row: Vec<Option<P>>| row@)
}

/// Asks `intersect` about every pair of an edge of `a` and an edge of `b`: row
/// `i`, entry `j` is its answer for `a[i]` and `b[j]`.
pub fn crossings<P: Copy, F: Fn((P, P), (P, P)) -> Option<P>>(
    a: &Vec<(P, P)>,
    b: &Vec<(P, P)>,
    intersect: &F,
) -> (r: Vec<Vec<Option<P>>>)
    requires
        forall|x: (P, P), y: (P, P)| intersect.requires((x, y)),
    ensures
        hits_shape(hits_view(r@), a@.len() as int, b@.len() as int),
        forall|i: int, j: int|
            0 <= i < a@.len() && 0 <= j < b@.len() ==> intersect.ensures(
                (a@[i], b@[j]),
                #[trigger] hits_view(r@)[i][j],
            ),
{
    let mut rows: Vec<Vec<Option<P>>> = Vec::new();
    let mut i: usize = 0;
    while i < a.len()
        invariant
            forall|x: (P, P), y: (P, P)| intersect.requires((x, y)),
            i <= a@.len(),
            rows@.len() == i,
            forall|u: int| 0 <= u < i ==> (#[trigger] rows@[u])@.len() == b@.len(),
            forall|u: int, j: int|
                0 <= u < i && 0 <= j < b@.len() ==> intersect.ensures(
                    (a@[u], b@[j]),
                    #[trigger] rows@[u]@[j],
                ),
        decreases a@.len() - i,
    {
        let mut row: Vec<Option<P>> = Vec::new();
        let mut j: usize = 0;
        while j < b.len()
            invariant
                forall|x: (P, P), y: (P, P)| intersect.requires((x, y)),
                i < a@.len(),
                j <= b@.len(),
                row@.len() == j,
                forall|k: int| 0 <= k < j ==> intersect.ensures((a@[i as int], b@[k]), #[trigger] row@[k]),
            decreases b@.len() - j,
        {
            let hit = intersect(a[i], b[j]);
            row.push(hit);
            j = j + 1;
        }
        rows.push(row);
        i = i + 1;
    }
    rows
}

proof fn lemma_row_pieces_step<P>(e: (P, P), b: Seq<(P, P)>, row: Seq<Option<P>>, m: int)
    requires
        0 <= m,
    ensures
        row_pieces(e, b, row, m + 1) == row_pieces(e, b, row, m) + match row[m] {
            Some(p) => seq![(e.0, p), (p, b[m].1)],
            None => Seq::<(P, P)>::empty(),
        },
{
}

/// Cuts the edges of `a` and `b` at their crossings, as given in `hits`, and
/// lists the result as `split_outline` says.
pub fn split_edges<P: Copy>(a: &Vec<(P, P)>, b: &Vec<(P, P)>, hits: &Vec<Vec<Option<P>>>) -> (r: Vec<
    (P, P),
>)
    requires
        hits_shape(hits_view(hits@), a@.len() as int, b@.len() as int),
    ensures
        r@ == split_outline(a@, b@, hits_view(hits@)),
{
    let ghost h = hits_view(hits@);
    let na = a.len();
    let nb = b.len();
    let mut res: Vec<(P, P)> = Vec::new();
    let mut i: usize = 0;
    while i < na
        invariant
            h == hits_view(hits@),
            na == a@.len(),
            nb == b@.len(),
            hits_shape(h, na as int, nb as int),
            i <= na,
            res@ == crossing_pieces(a@, b@, h, i as int),
        decreases na - i,
    {
        assert(hits@[i as int]@ == h[i as int]);
        let mut j: usize = 0;
        while j < nb
            invariant
                h == hits_view(hits@),
                na == a@.len(),
                nb == b@.len(),
                hits_shape(h, na as int, nb as int),
                i < na,
                j <= nb,
                hits@[i as int]@ == h[i as int],
                res@ == crossing_pieces(a@, b@, h, i as int) + row_pieces(
                    a@[i as int],
                    b@,
                    h[i as int],
                    j as int,
                ),
            decreases nb - j,
        {
            proof {
                lemma_row_pieces_step(a@[i as int], b@, h[i as int], j as int);
            }
            match hits[i][j] {
                Some(p) => {
                    res.push((a[i].0, p));
                    res.push((p, b[j].1));
                },
                None => {},
            }
            j = j + 1;
            assert(res@ =~= crossing_pieces(a@, b@, h, i as int) + row_pieces(
                a@[i as int],
                b@,
                h[i as int],
                j as int,
            ));
        }
        i = i + 1;
        assert(res@ =~= crossing_pieces(a@, b@, h, i as int));
    }
    let mut i: usize = 0;
    while i < na
        invariant
            h == hits_view(hits@),
            na == a@.len(),
            nb == b@.len(),
            hits_shape(h, na as int, nb as int),
            i <= na,
            res@ == crossing_pieces(a@, b@, h, na as int) + uncrossed_a(a@, h, nb as int, i as int),
        decreases na - i,
    {
        assert(hits@[i as int]@ == h[i as int]);
        let mut hit = false;
        let mut j: usize = 0;
        while j < nb
            invariant
                h == hits_view(hits@),
                nb == b@.len(),
                hits_shape(h, na as int, nb as int),
                i < na,
                j <= nb,
                hits@[i as int]@ == h[i as int],
                hit == row_hit(h[i as int], j as int),
            decreases nb - j,
        {
            if hits[i][j].is_some() {
                hit = true;
            }
            j = j + 1;
        }
        if !hit {
            res.push(a[i]);
        }
        i = i + 1;
        assert(res@ =~= crossing_pieces(a@, b@, h, na as int) + uncrossed_a(a@, h, nb as int, i as int));
    }
    let mut j: usize = 0;
    while j < nb
        invariant
            h == hits_view(hits@),
            na == a@.len(),
            nb == b@.len(),
            hits_shape(h, na as int, nb as int),
            j <= nb,
            res@ == crossing_pieces(a@, b@, h, na as int) + uncrossed_a(a@, h, nb as int, na as int)
                + uncrossed_b(b@, h, na as int, j as int),
        decreases nb - j,
    {
        let mut hit = false;
        let mut i: usize = 0;
        while i < na
            invariant
                h == hits_view(hits@),
                na == a@.len(),
                hits_shape(h, na as int, nb as int),
                j < nb,
                i <= na,
                hit == column_hit(h, j as int, i as int),
            decreases na - i,
        {
            assert(hits@[i as int]@ == h[i as int]);
            if hits[i][j].is_some() {
                hit = true;
            }
            i = i + 1;
        }
        if !hit {
            res.push(b[j]);
        }
        j = j + 1;
        assert(res@ =~= crossing_pieces(a@, b@, h, na as int) + uncrossed_a(a@, h, nb as int, na as int)
            + uncrossed_b(b@, h, na as int, j as int));
    }
    res
}

impl<P: Copy> IndexedTriangles<P> {
    /// The union of two flat meshes. The outlines of both are cut at their
    /// crossings, as `intersect` finds them, into the edges that a joined
    /// outline is to be rebuilt from; that rebuilding is not done, and the
    /// result is the concatenation of the two meshes.
    pub fn union<F: Fn((P, P), (P, P)) -> Option<P>>(&self, other: &Self, intersect: F) -> (r: Self)
        requires
            self.verts().len() + other.verts().len() <= usize::MAX,
            forall|x: (P, P), y: (P, P)| intersect.requires((x, y)),
        ensures
            is_concat(*self, *other, r),
    {
        let edges_a = self.outer_edges();
        let edges_b = other.outer_edges();
        let hits = crossings(&edges_a, &edges_b, &intersect);
        let _pieces = split_edges(&edges_a, &edges_b, &hits);
        self.concat(other)
    }
}

} // verus!
