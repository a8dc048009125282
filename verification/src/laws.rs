use vstd::prelude::*;
use crate::point::Point;
use crate::distance::{within_spec, lemma_within_self};
use crate::neighbors::{neighbors_upto, neighbor_count, lemma_neighbors_upto_membership};
use crate::dbscan::{clustering_post, dbscan_model, is_core, has_core_neighbor};
use crate::labels::{
    max_label, label_used, count_noise, lemma_count_noise_mono, lemma_count_noise_none,
};

verus! {

/// Cluster ids are contiguous from 0: every id up to the largest one in
/// use is carried by some point.
pub proof fn lemma_ids_contiguous(ps: Seq<Point>, eps: u64, m: int, r: Seq<i64>, c: int)
    requires
        clustering_post(ps, eps, m, r),
        0 <= c <= max_label(r),
    ensures
        label_used(r, c),
{
}

/// Idempotence: the clustering output is a function of the point set
/// and the parameters alone, so two runs on the same inputs agree bit
/// for bit.  `cluster` promises `r@ == dbscan_model(..)` of its result,
/// which this law turns into equality of any two results.
pub proof fn lemma_clustering_idempotent(
    ps: Seq<Point>,
    eps: u64,
    m: int,
    r1: Seq<i64>,
    r2: Seq<i64>,
)
    requires
        r1 == dbscan_model(ps, eps, m),
        r2 == dbscan_model(ps, eps, m),
    ensures
        r1 == r2,
{
}

/// Which points end up as noise is determined by the inputs alone: any
/// two labelings that meet the clustering contract for the same point
/// set and parameters mark exactly the same points as noise.
pub proof fn lemma_noise_partition_deterministic(
    ps: Seq<Point>,
    eps: u64,
    m: int,
    r1: Seq<i64>,
    r2: Seq<i64>,
)
    requires
        clustering_post(ps, eps, m, r1),
        clustering_post(ps, eps, m, r2),
    ensures
        forall|i: int| 0 <= i < ps.len() ==> ((#[trigger] r1[i] == -1) <==> r2[i] == -1),
{
}

/// Raising the core threshold while holding the radius fixed never
/// lowers the noise count: fewer points qualify as core points.
pub proof fn lemma_min_samples_monotone(
    ps: Seq<Point>,
    eps: u64,
    m1: int,
    m2: int,
    r1: Seq<i64>,
    r2: Seq<i64>,
)
    requires
        m1 <= m2,
        clustering_post(ps, eps, m1, r1),
        clustering_post(ps, eps, m2, r2),
    ensures
        count_noise(r1) <= count_noise(r2),
{
    assert forall|i: int| 0 <= i < r1.len() implies ((#[trigger] r1[i]) == -1 ==> r2[i] == -1) by {
        if ps.len() >= 2 && r1[i] == -1 {
            if has_core_neighbor(ps, i, eps, m2) {
                let j = choose|j: int|
                    0 <= j < ps.len() && #[trigger] is_core(ps, j, eps, m2) && within_spec(
                        ps[j],
                        ps[i],
                        eps,
                    );
                assert(is_core(ps, j, eps, m1));
                assert(false);
            }
        }
    }
    lemma_count_noise_mono(r1, r2);
}

/// With a radius below every inter-point distance, a point's only
/// neighbour is itself.
proof fn lemma_neighbors_upto_isolated(ps: Seq<Point>, j: int, eps: u64, n: int)
    requires
        0 <= n <= ps.len(),
        0 <= j < ps.len(),
        forall|p: int, q: int|
            0 <= p < ps.len() && 0 <= q < ps.len() && p != q ==> !#[trigger] within_spec(
                ps[p],
                ps[q],
                eps,
            ),
    ensures
        neighbors_upto(ps, j, eps, n).len() <= (if j < n {
            1int
        } else {
            0int
        }),
    decreases n,
{
    if n > 0 {
        lemma_neighbors_upto_isolated(ps, j, eps, n - 1);
        if within_spec(ps[j], ps[n - 1], eps) {
            assert(j == n - 1);
        }
    }
}

/// With a radius below every inter-point distance and a core threshold
/// of at least two, every point is noise.
pub proof fn lemma_isolated_points_all_noise(ps: Seq<Point>, eps: u64, m: int, r: Seq<i64>)
    requires
        clustering_post(ps, eps, m, r),
        m >= 2,
        forall|p: int, q: int|
            0 <= p < ps.len() && 0 <= q < ps.len() && p != q ==> !#[trigger] within_spec(
                ps[p],
                ps[q],
                eps,
            ),
    ensures
        forall|i: int| 0 <= i < r.len() ==> #[trigger] r[i] == -1,
{
    assert forall|i: int| 0 <= i < r.len() implies #[trigger] r[i] == -1 by {
        if ps.len() >= 2 {
            if has_core_neighbor(ps, i, eps, m) {
                let j = choose|j: int|
                    0 <= j < ps.len() && #[trigger] is_core(ps, j, eps, m) && within_spec(
                        ps[j],
                        ps[i],
                        eps,
                    );
                lemma_neighbors_upto_isolated(ps, j, eps, ps.len() as int);
                assert(neighbor_count(ps, j, eps) <= 1);
                assert(false);
            }
        }
    }
}

/// With a core threshold of one, every point of a set of two or more is
/// its own core point, so nothing is noise.  (A set of fewer than two
/// points is labelled all noise by fiat, whatever the threshold.)
pub proof fn lemma_min_samples_one_no_noise(ps: Seq<Point>, eps: u64, r: Seq<i64>)
    requires
        clustering_post(ps, eps, 1, r),
        2 <= ps.len() <= usize::MAX,
    ensures
        forall|i: int| 0 <= i < r.len() ==> #[trigger] r[i] >= 0,
        count_noise(r) == 0,
{
    assert forall|i: int| 0 <= i < r.len() implies #[trigger] r[i] >= 0 by {
        lemma_within_self(ps[i], eps);
        lemma_neighbors_upto_membership(ps, i, eps, ps.len() as int, i as usize);
        assert(neighbors_upto(ps, i, eps, ps.len() as int).contains(i as usize));
        let k = choose|k: int|
            0 <= k < neighbors_upto(ps, i, eps, ps.len() as int).len() && neighbors_upto(
                ps,
                i,
                eps,
                ps.len() as int,
            )[k] == i as usize;
        assert(neighbor_count(ps, i, eps) >= 1);
        assert(is_core(ps, i, eps, 1));
        assert(has_core_neighbor(ps, i, eps, 1));
        assert(r[i] != -1);
    }
    assert(forall|i: int| 0 <= i < r.len() ==> #[trigger] r[i] != -1);
    lemma_count_noise_none(r);
}

} // verus!
