use vstd::prelude::*;
use vstd::pervasive::VecAdditionalExecFns;
use crate::point::{Point, points_ok};
use crate::distance::{within_spec, lemma_within_self};
use crate::neighbors::{
    neighbors_upto, neighbor_count, lemma_neighbors_upto_membership, lemma_neighbors_upto_in_range,
    range_query,
};
use crate::labels::{
    Label, label_code, label_is, count_unvisited, lemma_count_unvisited_nonneg,
    lemma_count_unvisited_update, max_label, label_used, lemma_max_label_le,
};

verus! {

/// A label sequence of length `n` with every point unvisited.
pub open spec fn all_unvisited(n: nat) -> Seq<Label> {
    Seq::new(n, |x: int| Label::Unvisited)
}

/// The numeric encoding of a whole label sequence.
pub open spec fn encode_labels(s: Seq<Label>) -> Seq<i64> {
    s.map_values(|l: Label| label_code(l))
}

/// A numeric label sequence of length `n` with every point marked noise.
pub open spec fn all_noise_codes(n: nat) -> Seq<i64> {
    Seq::new(n, |x: int| -1i64)
}

/// One cluster's expansion, run to exhaustion of the worklist, which is
/// consumed from the back: an unvisited entry joins cluster `c` and, if
/// it is core, adds all of its neighbours to the worklist; a noise entry
/// is promoted into the cluster; anything already in a cluster is left
/// alone.
pub open spec fn expand_model(
    ps: Seq<Point>,
    eps: u64,
    m: int,
    labels: Seq<Label>,
    queue: Seq<usize>,
    c: i64,
) -> Seq<Label>
    decreases count_unvisited(labels), queue.len(),
    via expand_model_decreases
{
    if queue.len() == 0 {
        labels
    } else {
        let q = queue.last();
        let rest = queue.drop_last();
        if (q as int) < labels.len() {
            match labels[q as int] {
                Label::Unvisited => {
                    let claimed = labels.update(q as int, Label::Cluster(c));
                    if neighbor_count(ps, q as int, eps) >= m {
                        expand_model(
                            ps,
                            eps,
                            m,
                            claimed,
                            rest + neighbors_upto(ps, q as int, eps, ps.len() as int),
                            c,
                        )
                    } else {
                        expand_model(ps, eps, m, claimed, rest, c)
                    }
                },
                Label::Noise => expand_model(
                    ps,
                    eps,
                    m,
                    labels.update(q as int, Label::Cluster(c)),
                    rest,
                    c,
                ),
                Label::Cluster(_) => expand_model(ps, eps, m, labels, rest, c),
            }
        } else {
            expand_model(ps, eps, m, labels, rest, c)
        }
    }
}

#[via_fn]
proof fn expand_model_decreases(
    ps: Seq<Point>,
    eps: u64,
    m: int,
    labels: Seq<Label>,
    queue: Seq<usize>,
    c: i64,
) {
    lemma_count_unvisited_nonneg(labels);
    if queue.len() > 0 {
        let q = queue.last();
        if (q as int) < labels.len() && !(labels[q as int] is Cluster) {
            lemma_count_unvisited_update(labels, q as int, Label::Cluster(c));
            lemma_count_unvisited_nonneg(labels.update(q as int, Label::Cluster(c)));
        }
    }
}

/// The scan over the points in input order: an unvisited core point
/// opens the next cluster and expands it at once, an unvisited non-core
/// point is marked noise for now, everything else is skipped.
pub open spec fn scan_model(
    ps: Seq<Point>,
    eps: u64,
    m: int,
    labels: Seq<Label>,
    i: int,
    next: int,
) -> Seq<Label>
    decreases ps.len() - i,
{
    if i < 0 || i >= ps.len() {
        labels
    } else if labels[i] is Unvisited {
        if neighbor_count(ps, i, eps) >= m {
            scan_model(
                ps,
                eps,
                m,
                expand_model(
                    ps,
                    eps,
                    m,
                    labels.update(i, Label::Cluster(next as i64)),
                    neighbors_upto(ps, i, eps, ps.len() as int),
                    next as i64,
                ),
                i + 1,
                next + 1,
            )
        } else {
            scan_model(ps, eps, m, labels.update(i, Label::Noise), i + 1, next)
        }
    } else {
        scan_model(ps, eps, m, labels, i + 1, next)
    }
}

/// The whole clustering pass as a function of the inputs alone: fewer
/// than two points are all noise; otherwise the points are scanned in
/// order and the final labels encoded numerically.  `cluster` returns
/// exactly this sequence, so its output is determined by the point set
/// and the parameters.
pub open spec fn dbscan_model(ps: Seq<Point>, eps: u64, m: int) -> Seq<i64> {
    if ps.len() < 2 {
        all_noise_codes(ps.len())
    } else {
        encode_labels(scan_model(ps, eps, m, all_unvisited(ps.len()), 0, 0))
    }
}

/// A core point: at least `m` points of the set (itself included) lie
/// within `eps` of it.
pub open spec fn is_core(ps: Seq<Point>, c: int, eps: u64, m: int) -> bool {
    neighbor_count(ps, c, eps) >= m
}

/// Some core point lies within `eps` of point `q`.  Exactly the points
/// with this property end up inside a cluster; the rest are noise.
pub open spec fn has_core_neighbor(ps: Seq<Point>, q: int, eps: u64, m: int) -> bool {
    exists|j: int|
        0 <= j < ps.len() && #[trigger] is_core(ps, j, eps, m) && within_spec(ps[j], ps[q], eps)
}

/// Some entry of the label sequence assigns cluster id `c`.
pub open spec fn cluster_used(labels: Seq<Label>, c: int) -> bool {
    exists|p: int| 0 <= p < labels.len() && #[trigger] label_is(labels[p], c)
}

/// Every neighbour of a clustered core point is clustered as well, or
/// still waits in the expansion queue.
pub open spec fn expansion_closed(
    ps: Seq<Point>,
    eps: u64,
    m: int,
    labels: Seq<Label>,
    queue: Seq<usize>,
) -> bool {
    forall|p: int, q: int|
        #![trigger is_core(ps, p, eps, m), within_spec(ps[p], ps[q], eps)]
        0 <= p < ps.len() && 0 <= q < ps.len() && labels[p] is Cluster && is_core(ps, p, eps, m)
            && within_spec(ps[p], ps[q], eps) ==> (labels[q] is Cluster || queue.contains(
            q as usize,
        ))
}

/// The working invariant of cluster expansion: labels cover the point
/// set, cluster ids are allocated below `next_id` and all in use, noise
/// labels sit only on non-core points, clustered points have a core
/// neighbour, and expansion is closed up to the queue.
pub open spec fn labels_inv(
    ps: Seq<Point>,
    eps: u64,
    m: int,
    labels: Seq<Label>,
    next_id: int,
    queue: Seq<usize>,
) -> bool {
    &&& labels.len() == ps.len()
    &&& forall|p: int|
        0 <= p < labels.len() ==> (#[trigger] labels[p] is Cluster ==> 0 <= label_code(labels[p])
            < next_id)
    &&& forall|p: int|
        0 <= p < labels.len() ==> (#[trigger] labels[p] is Noise ==> !is_core(ps, p, eps, m))
    &&& forall|c: int| 0 <= c < next_id ==> #[trigger] cluster_used(labels, c)
    &&& forall|p: int|
        0 <= p < labels.len() ==> (#[trigger] labels[p] is Cluster ==> has_core_neighbor(
            ps,
            p,
            eps,
            m,
        ))
    &&& expansion_closed(ps, eps, m, labels, queue)
}

/// Every queued index is in range and has a core neighbour.
pub open spec fn queue_inv(ps: Seq<Point>, eps: u64, m: int, queue: Seq<usize>) -> bool {
    forall|k: int|
        0 <= k < queue.len() ==> #[trigger] queue[k] < ps.len() && has_core_neighbor(
            ps,
            queue[k] as int,
            eps,
            m,
        )
}

/// No point below `i` is still unvisited.
pub open spec fn decided_upto(labels: Seq<Label>, i: int) -> bool {
    forall|p: int| 0 <= p < i ==> !(#[trigger] labels[p] is Unvisited)
}

/// What `cluster` promises of its output `r` for a point set `ps`,
/// radius `eps` (micro-kilometres) and core threshold `m`:
/// one entry per point; every entry is -1 (noise) or a cluster id;
/// fewer than two points means all noise; otherwise a point is clustered
/// exactly when some core point lies within `eps` of it; and the ids in
/// use are contiguous from 0.
pub open spec fn clustering_post(ps: Seq<Point>, eps: u64, m: int, r: Seq<i64>) -> bool {
    &&& r.len() == ps.len()
    &&& forall|i: int| 0 <= i < r.len() ==> #[trigger] r[i] >= -1
    &&& (ps.len() < 2 ==> forall|i: int| 0 <= i < r.len() ==> #[trigger] r[i] == -1)
    &&& (ps.len() >= 2 ==> forall|i: int|
        0 <= i < r.len() ==> ((#[trigger] r[i] == -1) <==> !has_core_neighbor(ps, i, eps, m)))
    &&& forall|c: int|
        #![trigger label_used(r, c)]
        0 <= c <= max_label(r) ==> label_used(r, c)
}

/// Writing a non-cluster entry over a non-cluster entry keeps every
/// cluster id in use.
proof fn lemma_cluster_used_update(labels: Seq<Label>, q: int, v: Label, c: int)
    requires
        0 <= q < labels.len(),
        !(labels[q] is Cluster),
        cluster_used(labels, c),
    ensures
        cluster_used(labels.update(q, v), c),
{
    let w = choose|w: int| 0 <= w < labels.len() && #[trigger] label_is(labels[w], c);
    assert(w != q);
    assert(label_is(labels.update(q, v)[w], c));
}

/// Density-based clustering (DBSCAN).  Scans the points in input order;
/// each unvisited core point opens a new cluster, which is grown over a
/// worklist through chains of core points; non-core points within reach
/// join as border points, the rest stay noise.  Returns one entry per
/// point: -1 for noise, otherwise the id of its cluster.
#[verifier::loop_isolation(false)]
pub fn cluster(points: &Vec<Point>, eps: u64, min_samples: usize) -> (r: Vec<i64>)
    requires
        points_ok(points@),
        1 <= min_samples,
        points@.len() < 0x8000_0000_0000_0000,
    ensures
        clustering_post(points@, eps, min_samples as int, r@),
        r@ == dbscan_model(points@, eps, min_samples as int),
{
    let ghost ps = points@;
    let ghost m: int = min_samples as int;
    let n = points.len();
    if n < 2 {
        let mut out: Vec<i64> = Vec::new();
        while out.len() < n
            invariant
                out@.len() <= n,
                forall|p: int| 0 <= p < out@.len() ==> #[trigger] out@[p] == -1,
            decreases n - out@.len(),
        {
            out.push(-1);
        }
        proof {
            lemma_max_label_le(out@, -1);
            assert(out@ =~= all_noise_codes(ps.len()));
        }
        return out;
    }
    let mut labels: Vec<Label> = Vec::new();
    while labels.len() < n
        invariant
            labels@.len() <= n,
            forall|p: int| 0 <= p < labels@.len() ==> #[trigger] labels@[p] is Unvisited,
        decreases n - labels@.len(),
    {
        labels.push(Label::Unvisited);
    }
    proof {
        assert(labels@ =~= all_unvisited(ps.len()));
    }
    let ghost scan_target = scan_model(ps, eps, m, labels@, 0, 0);
    let mut next_id: i64 = 0;
    let mut i: usize = 0;
    while i < n
        invariant
            labels@.len() == n,
            i <= n,
            0 <= next_id <= i,
            labels_inv(ps, eps, m, labels@, next_id as int, Seq::<usize>::empty()),
            decided_upto(labels@, i as int),
            scan_model(ps, eps, m, labels@, i as int, next_id as int) == scan_target,
        decreases n - i,
    {
        let cur: Label = labels[i];
        if cur == Label::Unvisited {
            let nbrs = range_query(points, i, eps);
            proof {
                lemma_neighbors_upto_in_range(ps, i as int, eps, n as int);
            }
            if nbrs.len() < min_samples {
                let ghost l0 = labels@;
                labels.set(i, Label::Noise);
                proof {
                    assert(!is_core(ps, i as int, eps, m));
                    assert forall|c: int| 0 <= c < next_id implies #[trigger] cluster_used(
                        labels@,
                        c,
                    ) by {
                        lemma_cluster_used_update(l0, i as int, Label::Noise, c);
                    }
                    assert forall|p: int, q: int|
                        #![trigger is_core(ps, p, eps, m), within_spec(ps[p], ps[q], eps)]
                        0 <= p < ps.len() && 0 <= q < ps.len() && labels@[p] is Cluster && is_core(
                            ps,
                            p,
                            eps,
                            m,
                        ) && within_spec(ps[p], ps[q], eps) implies (labels@[q] is Cluster
                        || Seq::<usize>::empty().contains(q as usize)) by {
                        assert(p != i);
                        assert(l0[p] is Cluster);
                        assert(l0[q] is Cluster);
                        assert(q != i);
                    }
                    assert(scan_model(ps, eps, m, l0, i as int, next_id as int) == scan_model(
                        ps,
                        eps,
                        m,
                        labels@,
                        i as int + 1,
                        next_id as int,
                    ));
                }
            } else {
                let c = next_id;
                let ghost l0 = labels@;
                labels.set(i, Label::Cluster(c));
                next_id = next_id + 1;
                let mut queue: Vec<usize> = nbrs;
                proof {
                    assert(neighbor_count(ps, i as int, eps) >= m);
                    assert(is_core(ps, i as int, eps, m));
                    lemma_within_self(ps[i as int], eps);
                    assert(has_core_neighbor(ps, i as int, eps, m));
                    assert forall|c2: int| 0 <= c2 < next_id implies #[trigger] cluster_used(
                        labels@,
                        c2,
                    ) by {
                        if c2 < c {
                            lemma_cluster_used_update(l0, i as int, Label::Cluster(c), c2);
                        } else {
                            assert(label_is(labels@[i as int], c2));
                        }
                    }
                    assert forall|p: int, q: int|
                        #![trigger is_core(ps, p, eps, m), within_spec(ps[p], ps[q], eps)]
                        0 <= p < ps.len() && 0 <= q < ps.len() && labels@[p] is Cluster && is_core(
                            ps,
                            p,
                            eps,
                            m,
                        ) && within_spec(ps[p], ps[q], eps) implies (labels@[q] is Cluster
                        || queue@.contains(q as usize)) by {
                        if p == i as int {
                            lemma_neighbors_upto_membership(ps, i as int, eps, n as int, q as usize);
                        } else {
                            assert(l0[p] is Cluster);
                            assert(l0[q] is Cluster);
                            assert(q != i);
                        }
                    }
                    assert forall|k: int| 0 <= k < queue@.len() implies #[trigger] queue@[k]
                        < ps.len() && has_core_neighbor(ps, queue@[k] as int, eps, m) by {
                        assert(queue@[k] < n && within_spec(ps[i as int], ps[queue@[k] as int], eps));
                    }
                }
                let ghost expand_target = expand_model(ps, eps, m, labels@, queue@, c);
                while queue.len() > 0
                    invariant
                        labels@.len() == n,
                        c == next_id - 1,
                        label_is(labels@[i as int], c as int),
                        labels_inv(ps, eps, m, labels@, next_id as int, queue@),
                        queue_inv(ps, eps, m, queue@),
                        decided_upto(labels@, i as int),
                        expand_model(ps, eps, m, labels@, queue@, c) == expand_target,
                    decreases count_unvisited(labels@), queue@.len(),
                {
                    let ghost q0 = queue@;
                    let ghost l0 = labels@;
                    let q: usize = queue.pop().unwrap();
                    proof {
                        assert(q0[q0.len() - 1] == q);
                        assert(q0.last() == q);
                        assert(q0.drop_last() =~= q0.subrange(0, q0.len() - 1));
                        assert(q < n);
                        lemma_count_unvisited_nonneg(labels@);
                    }
                    let ql: Label = labels[q];
                    match ql {
                        Label::Unvisited => {
                            let mut qn = range_query(points, q, eps);
                            let ghost qn0 = qn@;
                            proof {
                                lemma_neighbors_upto_in_range(ps, q as int, eps, n as int);
                            }
                            labels.set(q, Label::Cluster(c));
                            let core_q = qn.len() >= min_samples;
                            if core_q {
                                queue.append(&mut qn);
                            }
                            proof {
                                lemma_count_unvisited_update(l0, q as int, Label::Cluster(c));
                                lemma_count_unvisited_nonneg(labels@);
                                assert(q != i);
                                assert(has_core_neighbor(ps, q as int, eps, m));
                                assert forall|c2: int| 0 <= c2 < next_id implies
                                    #[trigger] cluster_used(labels@, c2) by {
                                    lemma_cluster_used_update(l0, q as int, Label::Cluster(c), c2);
                                }
                                assert forall|p: int, r: int|
                                    #![trigger is_core(ps, p, eps, m), within_spec(ps[p], ps[r], eps)]
                                    0 <= p < ps.len() && 0 <= r < ps.len() && labels@[p] is Cluster
                                        && is_core(ps, p, eps, m) && within_spec(ps[p], ps[r], eps)
                                        implies (labels@[r] is Cluster || queue@.contains(
                                        r as usize,
                                    )) by {
                                    if p == q as int {
                                        assert(core_q);
                                        lemma_neighbors_upto_membership(
                                            ps,
                                            q as int,
                                            eps,
                                            n as int,
                                            r as usize,
                                        );
                                        let k = choose|k: int|
                                            0 <= k < neighbors_upto(ps, q as int, eps, n as int).len()
                                                && neighbors_upto(ps, q as int, eps, n as int)[k]
                                                == r as usize;
                                        assert(queue@[q0.len() - 1 + k] == r as usize);
                                    } else {
                                        if l0[r] is Cluster {
                                        } else {
                                            let k = choose|k: int|
                                                0 <= k < q0.len() && q0[k] == r as usize;
                                            if k < q0.len() - 1 {
                                                assert(queue@[k] == r as usize);
                                            } else {
                                                assert(r == q as int);
                                            }
                                        }
                                    }
                                }
                                assert forall|k: int| 0 <= k < queue@.len() implies
                                    #[trigger] queue@[k] < ps.len() && has_core_neighbor(
                                    ps,
                                    queue@[k] as int,
                                    eps,
                                    m,
                                ) by {
                                    if k < q0.len() - 1 {
                                        assert(q0[k] == queue@[k]);
                                    } else {
                                        assert(core_q);
                                        let e = queue@[k];
                                        assert(neighbors_upto(ps, q as int, eps, n as int)[k - (
                                        q0.len() - 1)] == e);
                                        assert(e < n && within_spec(ps[q as int], ps[e as int], eps));
                                        assert(is_core(ps, q as int, eps, m));
                                    }
                                }
                                assert(labels@ == l0.update(q as int, Label::Cluster(c)));
                                if core_q {
                                    assert(neighbor_count(ps, q as int, eps) >= m);
                                    assert(queue@ =~= q0.drop_last() + qn0);
                                } else {
                                    assert(neighbor_count(ps, q as int, eps) < m);
                                    assert(queue@ =~= q0.drop_last());
                                }
                                assert(expand_model(ps, eps, m, l0, q0, c) == expand_model(
                                    ps,
                                    eps,
                                    m,
                                    labels@,
                                    queue@,
                                    c,
                                ));
                            }
                        },
                        Label::Noise => {
                            labels.set(q, Label::Cluster(c));
                            proof {
                                lemma_count_unvisited_update(l0, q as int, Label::Cluster(c));
                                assert(q != i);
                                assert(has_core_neighbor(ps, q as int, eps, m));
                                assert forall|c2: int| 0 <= c2 < next_id implies
                                    #[trigger] cluster_used(labels@, c2) by {
                                    lemma_cluster_used_update(l0, q as int, Label::Cluster(c), c2);
                                }
                                assert forall|p: int, r: int|
                                    #![trigger is_core(ps, p, eps, m), within_spec(ps[p], ps[r], eps)]
                                    0 <= p < ps.len() && 0 <= r < ps.len() && labels@[p] is Cluster
                                        && is_core(ps, p, eps, m) && within_spec(ps[p], ps[r], eps)
                                        implies (labels@[r] is Cluster || queue@.contains(
                                        r as usize,
                                    )) by {
                                    if p == q as int {
                                        assert(l0[p] is Noise);
                                        assert(!is_core(ps, p, eps, m));
                                    } else {
                                        if l0[r] is Cluster {
                                        } else {
                                            let k = choose|k: int|
                                                0 <= k < q0.len() && q0[k] == r as usize;
                                            if k < q0.len() - 1 {
                                                assert(queue@[k] == r as usize);
                                            } else {
                                                assert(r == q as int);
                                            }
                                        }
                                    }
                                }
                                assert(labels@ == l0.update(q as int, Label::Cluster(c)));
                                assert(queue@ =~= q0.drop_last());
                                assert(expand_model(ps, eps, m, l0, q0, c) == expand_model(
                                    ps,
                                    eps,
                                    m,
                                    labels@,
                                    queue@,
                                    c,
                                ));
                            }
                        },
                        Label::Cluster(_) => {
                            proof {
                                assert forall|p: int, r: int|
                                    #![trigger is_core(ps, p, eps, m), within_spec(ps[p], ps[r], eps)]
                                    0 <= p < ps.len() && 0 <= r < ps.len() && labels@[p] is Cluster
                                        && is_core(ps, p, eps, m) && within_spec(ps[p], ps[r], eps)
                                        implies (labels@[r] is Cluster || queue@.contains(
                                        r as usize,
                                    )) by {
                                    if l0[r] is Cluster {
                                    } else {
                                        let k = choose|k: int|
                                            0 <= k < q0.len() && q0[k] == r as usize;
                                        if k < q0.len() - 1 {
                                            assert(queue@[k] == r as usize);
                                        } else {
                                            assert(r == q as int);
                                            assert(labels@[q as int] is Cluster);
                                        }
                                    }
                                }
                                assert(queue@ =~= q0.drop_last());
                                assert(expand_model(ps, eps, m, l0, q0, c) == expand_model(
                                    ps,
                                    eps,
                                    m,
                                    labels@,
                                    queue@,
                                    c,
                                ));
                            }
                        },
                    }
                }
                proof {
                    assert(queue@ =~= Seq::<usize>::empty());
                    assert(expand_model(ps, eps, m, labels@, queue@, c) == labels@);
                    assert(labels@ == expand_target);
                    assert(scan_model(ps, eps, m, l0, i as int, c as int) == scan_model(
                        ps,
                        eps,
                        m,
                        labels@,
                        i as int + 1,
                        next_id as int,
                    ));
                }
            }
        } else {
            proof {
                assert(scan_model(ps, eps, m, labels@, i as int, next_id as int) == scan_model(
                    ps,
                    eps,
                    m,
                    labels@,
                    i as int + 1,
                    next_id as int,
                ));
            }
        }
        i = i + 1;
    }
    let mut out: Vec<i64> = Vec::new();
    let mut k: usize = 0;
    while k < n
        invariant
            k <= n,
            out@.len() == k,
            forall|p: int| 0 <= p < k ==> #[trigger] out@[p] == label_code(labels@[p]),
        decreases n - k,
    {
        let l = labels[k];
        match l {
            Label::Unvisited => out.push(-2),
            Label::Noise => out.push(-1),
            Label::Cluster(cid) => out.push(cid),
        }
        k = k + 1;
    }
    proof {
        assert forall|p: int| 0 <= p < out@.len() implies #[trigger] out@[p] >= -1 by {
            assert(!(labels@[p] is Unvisited));
        }
        assert forall|p: int|
            0 <= p < out@.len() implies ((#[trigger] out@[p] == -1) <==> !has_core_neighbor(
            ps,
            p,
            eps,
            m,
        )) by {
            assert(!(labels@[p] is Unvisited));
            if labels@[p] is Noise {
                if has_core_neighbor(ps, p, eps, m) {
                    let j = choose|j: int|
                        0 <= j < ps.len() && #[trigger] is_core(ps, j, eps, m) && within_spec(
                            ps[j],
                            ps[p],
                            eps,
                        );
                    assert(!(labels@[j] is Unvisited));
                    assert(!(labels@[j] is Noise));
                    assert(labels@[j] is Cluster);
                    assert(labels@[p] is Cluster || Seq::<usize>::empty().contains(p as usize));
                    assert(false);
                }
            } else {
                assert(labels@[p] is Cluster);
                assert(has_core_neighbor(ps, p, eps, m));
                assert(out@[p] >= 0);
            }
        }
        assert forall|p: int| 0 <= p < out@.len() implies #[trigger] out@[p] <= next_id - 1 by {
            assert(!(labels@[p] is Unvisited));
        }
        lemma_max_label_le(out@, next_id - 1);
        assert forall|c: int|
            #![trigger label_used(out@, c)]
            0 <= c <= max_label(out@) implies label_used(out@, c) by {
            assert(cluster_used(labels@, c));
            let w = choose|w: int| 0 <= w < labels@.len() && #[trigger] label_is(labels@[w], c);
            assert(out@[w] == c);
        }
        assert(scan_model(ps, eps, m, labels@, n as int, next_id as int) == labels@);
        assert(labels@ == scan_target);
        assert forall|p: int| 0 <= p < out@.len() implies out@[p] == encode_labels(labels@)[p] by {
            assert(encode_labels(labels@)[p] == label_code(labels@[p]));
        }
        assert(out@ =~= encode_labels(labels@));
        assert(out@ == dbscan_model(ps, eps, m));
    }
    out
}

} // verus!
