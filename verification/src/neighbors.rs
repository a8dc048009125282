use vstd::prelude::*;
use crate::point::{Point, points_ok};
use crate::distance::{within_spec, within_radius};

verus! {

/// The indices below `n` whose points lie within `eps` of point `c`,
/// in increasing order.
pub open spec fn neighbors_upto(ps: Seq<Point>, c: int, eps: u64, n: int) -> Seq<usize>
    decreases n,
{
    if n <= 0 {
        Seq::empty()
    } else if within_spec(ps[c], ps[n - 1], eps) {
        neighbors_upto(ps, c, eps, n - 1).push((n - 1) as usize)
    } else {
        neighbors_upto(ps, c, eps, n - 1)
    }
}

/// How many points of the whole sequence lie within `eps` of point `c`
/// (point `c` itself included).
pub open spec fn neighbor_count(ps: Seq<Point>, c: int, eps: u64) -> int {
    neighbors_upto(ps, c, eps, ps.len() as int).len() as int
}

/// An index is listed among the neighbours of `c` up to `n` exactly when it
/// is below `n` and its point lies within `eps` of point `c`.
pub proof fn lemma_neighbors_upto_membership(ps: Seq<Point>, c: int, eps: u64, n: int, q: usize)
    requires
        0 <= n <= ps.len(),
        n <= usize::MAX,
    ensures
        neighbors_upto(ps, c, eps, n).contains(q) <==> (q < n && within_spec(
            ps[c],
            ps[q as int],
            eps,
        )),
    decreases n,
{
    if n > 0 {
        lemma_neighbors_upto_membership(ps, c, eps, n - 1, q);
        let prev = neighbors_upto(ps, c, eps, n - 1);
        if within_spec(ps[c], ps[n - 1], eps) {
            let cur = prev.push((n - 1) as usize);
            assert forall|x: usize| prev.contains(x) implies cur.contains(x) by {
                let k = choose|k: int| 0 <= k < prev.len() && prev[k] == x;
                assert(cur[k] == x);
            }
            if cur.contains(q) {
                let k = choose|k: int| 0 <= k < cur.len() && cur[k] == q;
                if k < prev.len() {
                    assert(prev[k] == q);
                }
            }
            if q < n && within_spec(ps[c], ps[q as int], eps) && q >= n - 1 {
                assert(cur[prev.len() as int] == q);
            }
        }
    }
}

/// Every listed neighbour index is below `n`.
pub proof fn lemma_neighbors_upto_in_range(ps: Seq<Point>, c: int, eps: u64, n: int)
    requires
        0 <= n <= ps.len(),
        n <= usize::MAX,
    ensures
        forall|k: int|
            0 <= k < neighbors_upto(ps, c, eps, n).len() ==> #[trigger] neighbors_upto(
                ps,
                c,
                eps,
                n,
            )[k] < n && within_spec(ps[c], ps[neighbors_upto(ps, c, eps, n)[k] as int], eps),
    decreases n,
{
    if n > 0 {
        lemma_neighbors_upto_in_range(ps, c, eps, n - 1);
        let prev = neighbors_upto(ps, c, eps, n - 1);
        let cur = neighbors_upto(ps, c, eps, n);
        assert forall|k: int| 0 <= k < cur.len() implies cur[k] < n && within_spec(
            ps[c],
            ps[cur[k] as int],
            eps,
        ) by {
            if within_spec(ps[c], ps[n - 1], eps) {
                if k < prev.len() {
                    assert(cur[k] == prev[k]);
                } else {
                    assert(cur[k] == (n - 1) as usize);
                }
            } else {
                assert(cur[k] == prev[k]);
            }
        }
    }
}

/// Range query: every index whose point lies within `eps` of point
/// `center`, by brute-force scan, in increasing index order.
pub fn range_query(points: &Vec<Point>, center: usize, eps: u64) -> (r: Vec<usize>)
    requires
        points_ok(points@),
        center < points@.len(),
    ensures
        r@ == neighbors_upto(points@, center as int, eps, points@.len() as int),
{
    let n = points.len();
    let mut r: Vec<usize> = Vec::new();
    let mut j: usize = 0;
    while j < n
        invariant
            points_ok(points@),
            center < points@.len(),
            n == points@.len(),
            j <= n,
            r@ == neighbors_upto(points@, center as int, eps, j as int),
        decreases n - j,
    {
        if within_radius(&points[center], &points[j], eps) {
            r.push(j);
        }
        j = j + 1;
    }
    r
}

} // verus!
