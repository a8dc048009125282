use vstd::prelude::*;

verus! {

/// The state of one point during and after cluster expansion.
#[derive(Clone, Copy, Debug, PartialEq, Eq, Structural)]
pub enum Label {
    /// Not yet looked at.
    Unvisited,
    /// Currently held to be noise; may still be promoted into a cluster
    /// as a border point.
    Noise,
    /// Member of the cluster with this id.
    Cluster(i64),
}

/// The numeric encoding of a label: -1 for noise, the id itself for a
/// cluster member.  An unvisited point encodes to -2, but a finished
/// clustering leaves no point unvisited.
pub open spec fn label_code(l: Label) -> i64 {
    match l {
        Label::Unvisited => -2i64,
        Label::Noise => -1i64,
        Label::Cluster(c) => c,
    }
}

/// Whether `l` assigns membership of the cluster with id `c`.
pub open spec fn label_is(l: Label, c: int) -> bool {
    match l {
        Label::Cluster(x) => x == c,
        _ => false,
    }
}

/// How many labels of the sequence are still `Unvisited`.
pub open spec fn count_unvisited(s: Seq<Label>) -> int
    decreases s.len(),
{
    if s.len() == 0 {
        0
    } else {
        count_unvisited(s.drop_last()) + if s.last() is Unvisited {
            1int
        } else {
            0int
        }
    }
}

/// The unvisited count is never negative.
pub proof fn lemma_count_unvisited_nonneg(s: Seq<Label>)
    ensures
        0 <= count_unvisited(s),
    decreases s.len(),
{
    if s.len() > 0 {
        lemma_count_unvisited_nonneg(s.drop_last());
    }
}

/// Writing a decided label lowers the unvisited count by one when the old
/// entry was unvisited and leaves it unchanged otherwise.
pub proof fn lemma_count_unvisited_update(s: Seq<Label>, q: int, v: Label)
    requires
        0 <= q < s.len(),
        !(v is Unvisited),
    ensures
        count_unvisited(s.update(q, v)) == count_unvisited(s) - (if s[q] is Unvisited {
            1int
        } else {
            0int
        }),
    decreases s.len(),
{
    let t = s.update(q, v);
    if q == s.len() - 1 {
        assert(t.drop_last() =~= s.drop_last());
    } else {
        assert(t.drop_last() =~= s.drop_last().update(q, v));
        lemma_count_unvisited_update(s.drop_last(), q, v);
    }
}

/// The largest entry of a label sequence, or -1 if the sequence is empty.
pub open spec fn max_label(s: Seq<i64>) -> int
    decreases s.len(),
{
    if s.len() == 0 {
        -1
    } else if s.last() > max_label(s.drop_last()) {
        s.last() as int
    } else {
        max_label(s.drop_last())
    }
}

/// Some entry of the sequence equals `c`.
pub open spec fn label_used(s: Seq<i64>, c: int) -> bool {
    exists|i: int| 0 <= i < s.len() && s[i] == c
}

/// An upper bound on every entry bounds the maximum as well.
pub proof fn lemma_max_label_le(s: Seq<i64>, b: int)
    requires
        -1 <= b,
        forall|i: int| 0 <= i < s.len() ==> #[trigger] s[i] <= b,
    ensures
        max_label(s) <= b,
    decreases s.len(),
{
    if s.len() > 0 {
        assert(forall|i: int| 0 <= i < s.drop_last().len() ==> #[trigger] s.drop_last()[i] <= b);
        lemma_max_label_le(s.drop_last(), b);
    }
}

/// The maximum is at least every entry, and at least -1.
pub proof fn lemma_max_label_ge(s: Seq<i64>)
    ensures
        -1 <= max_label(s),
        forall|i: int| 0 <= i < s.len() ==> #[trigger] s[i] <= max_label(s),
    decreases s.len(),
{
    if s.len() > 0 {
        lemma_max_label_ge(s.drop_last());
        assert forall|i: int| 0 <= i < s.len() implies #[trigger] s[i] <= max_label(s) by {
            if i < s.len() - 1 {
                assert(s.drop_last()[i] == s[i]);
            }
        }
    }
}

/// How many entries of the sequence are the noise marker -1.
pub open spec fn count_noise(s: Seq<i64>) -> int
    decreases s.len(),
{
    if s.len() == 0 {
        0
    } else {
        count_noise(s.drop_last()) + if s.last() == -1 {
            1int
        } else {
            0int
        }
    }
}

/// The noise count lies between 0 and the length.
pub proof fn lemma_count_noise_bounds(s: Seq<i64>)
    ensures
        0 <= count_noise(s) <= s.len(),
    decreases s.len(),
{
    if s.len() > 0 {
        lemma_count_noise_bounds(s.drop_last());
    }
}

/// A sequence without the noise marker has noise count zero.
pub proof fn lemma_count_noise_none(s: Seq<i64>)
    requires
        forall|i: int| 0 <= i < s.len() ==> #[trigger] s[i] != -1,
    ensures
        count_noise(s) == 0,
    decreases s.len(),
{
    if s.len() > 0 {
        assert(forall|i: int|
            0 <= i < s.drop_last().len() ==> #[trigger] s.drop_last()[i] != -1);
        lemma_count_noise_none(s.drop_last());
        assert(s.last() == s[s.len() - 1]);
    }
}

/// If every noise entry of `s1` is a noise entry of `s2` as well, `s2`
/// holds at least as many noise entries.
pub proof fn lemma_count_noise_mono(s1: Seq<i64>, s2: Seq<i64>)
    requires
        s1.len() == s2.len(),
        forall|i: int| 0 <= i < s1.len() ==> (#[trigger] s1[i] == -1 ==> s2[i] == -1),
    ensures
        count_noise(s1) <= count_noise(s2),
    decreases s1.len(),
{
    if s1.len() > 0 {
        assert forall|i: int|
            0 <= i < s1.drop_last().len() implies (#[trigger] s1.drop_last()[i] == -1
            ==> s2.drop_last()[i] == -1) by {
            assert(s1.drop_last()[i] == s1[i]);
            assert(s2.drop_last()[i] == s2[i]);
        }
        lemma_count_noise_mono(s1.drop_last(), s2.drop_last());
        assert(s1.last() == s1[s1.len() - 1]);
    }
}

} // verus!
