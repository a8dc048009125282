use vstd::prelude::*;
use crate::labels::{max_label, count_noise, lemma_max_label_le, lemma_count_noise_bounds};

verus! {

/// The cluster id recorded for one point: -1 for noise, otherwise the id
/// of the cluster the point belongs to.
pub fn get_cluster_of(labels: &Vec<i64>, index: usize) -> (r: i64)
    requires
        index < labels@.len(),
    ensures
        r == labels@[index as int],
{
    labels[index]
}

/// How many clusters the labelling holds: one more than the largest id,
/// 0 when every point is noise.
#[verifier::loop_isolation(false)]
pub fn cluster_count(labels: &Vec<i64>) -> (r: i64)
    requires
        forall|i: int| 0 <= i < labels@.len() ==> #[trigger] labels@[i] < i64::MAX,
    ensures
        r == max_label(labels@) + 1,
{
    let ghost s = labels@;
    let n = labels.len();
    let mut best: i64 = -1;
    let mut k: usize = 0;
    proof {
        assert(s.take(0) =~= Seq::<i64>::empty());
    }
    while k < n
        invariant
            k <= n,
            n == s.len(),
            best == max_label(s.take(k as int)),
            -1 <= best,
            forall|i: int| 0 <= i < s.len() ==> #[trigger] s[i] < i64::MAX,
        decreases n - k,
    {
        let v = labels[k];
        proof {
            assert(s.take(k + 1).drop_last() =~= s.take(k as int));
            assert(s.take(k + 1).last() == s[k as int]);
        }
        if v > best {
            best = v;
        }
        k = k + 1;
    }
    proof {
        assert(s.take(n as int) =~= s);
        lemma_max_label_le(s, i64::MAX - 1);
    }
    best + 1
}

/// How many points the labelling marks as noise.
#[verifier::loop_isolation(false)]
pub fn noise_count(labels: &Vec<i64>) -> (r: usize)
    ensures
        r == count_noise(labels@),
{
    let ghost s = labels@;
    let n = labels.len();
    let mut count: usize = 0;
    let mut k: usize = 0;
    proof {
        assert(s.take(0) =~= Seq::<i64>::empty());
    }
    while k < n
        invariant
            k <= n,
            n == s.len(),
            count == count_noise(s.take(k as int)),
            count <= k,
        decreases n - k,
    {
        proof {
            assert(s.take(k + 1).drop_last() =~= s.take(k as int));
            assert(s.take(k + 1).last() == s[k as int]);
            lemma_count_noise_bounds(s.take(k + 1));
        }
        if labels[k] == -1 {
            count = count + 1;
        }
        k = k + 1;
    }
    proof {
        assert(s.take(n as int) =~= s);
    }
    count
}

} // verus!
