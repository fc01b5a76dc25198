use vstd::prelude::*;

verus! {

/// A distance between two embeddings; distances are never negative.
pub type Distance = u128;

/// Number of distances in `s` that are at most `t`.
pub open spec fn count_le(s: Seq<Distance>, t: Distance) -> nat
    decreases s.len(),
{
    if s.len() == 0 {
        0
    } else {
        count_le(s.drop_last(), t) + if s.last() <= t {
            1nat
        } else {
            0nat
        }
    }
}

/// Number of distances in `s` that are greater than `t`.
pub open spec fn count_gt(s: Seq<Distance>, t: Distance) -> nat
    decreases s.len(),
{
    if s.len() == 0 {
        0
    } else {
        count_gt(s.drop_last(), t) + if s.last() > t {
            1nat
        } else {
            0nat
        }
    }
}

/// Every distance is either at most `t` or greater than it.
pub proof fn lemma_counts_partition(s: Seq<Distance>, t: Distance)
    ensures
        count_le(s, t) + count_gt(s, t) == s.len(),
    decreases s.len(),
{
    if s.len() > 0 {
        lemma_counts_partition(s.drop_last(), t);
    }
}

/// Number of errors made by threshold `t`: same-person distances above it
/// plus different-person distances at or below it.
pub open spec fn errors_at(same: Seq<Distance>, diff: Seq<Distance>, t: Distance) -> int {
    (same.len() - count_le(same, t)) + (diff.len() - count_gt(diff, t))
}

/// The four counts of classifying distances with one threshold: a pair is
/// classified as "same person" when its distance is at most the threshold.
#[derive(Clone, Copy, Debug, PartialEq, Eq)]
pub struct ConfusionMatrix {
    /// same-person distances at or below the threshold
    pub tp: usize,
    /// same-person distances above the threshold
    pub fne: usize,
    /// different-person distances above the threshold
    pub tn: usize,
    /// different-person distances at or below the threshold
    pub fp: usize,
}

impl ConfusionMatrix {
    /// The matrix of `threshold` over the given populations.
    pub open spec fn spec_new(threshold: Distance, same: Seq<Distance>, diff: Seq<Distance>) -> ConfusionMatrix {
        ConfusionMatrix {
            tp: count_le(same, threshold) as usize,
            fne: (same.len() - count_le(same, threshold)) as usize,
            tn: count_gt(diff, threshold) as usize,
            fp: (diff.len() - count_gt(diff, threshold)) as usize,
        }
    }

    /// Counts how the threshold classifies both populations.
    pub fn new(threshold: Distance, same: &Vec<Distance>, diff: &Vec<Distance>) -> (r: ConfusionMatrix)
        ensures
            r == ConfusionMatrix::spec_new(threshold, same@, diff@),
            r.tp + r.fne == same@.len(),
            r.tn + r.fp == diff@.len(),
            r.tp == count_le(same@, threshold),
            r.tn == count_gt(diff@, threshold),
    {
        let mut tp: usize = 0;
        let mut i: usize = 0;
        while i < same.len()
            invariant
                i <= same@.len(),
                tp == count_le(same@.subrange(0, i as int), threshold),
                tp <= i,
            decreases same@.len() - i,
        {
            assert(same@.subrange(0, i as int + 1).drop_last() =~= same@.subrange(0, i as int));
            if same[i] <= threshold {
                tp = tp + 1;
            }
            i = i + 1;
        }
        assert(same@.subrange(0, same@.len() as int) =~= same@);
        let mut tn: usize = 0;
        let mut j: usize = 0;
        while j < diff.len()
            invariant
                j <= diff@.len(),
                tn == count_gt(diff@.subrange(0, j as int), threshold),
                tn <= j,
            decreases diff@.len() - j,
        {
            assert(diff@.subrange(0, j as int + 1).drop_last() =~= diff@.subrange(0, j as int));
            if diff[j] > threshold {
                tn = tn + 1;
            }
            j = j + 1;
        }
        assert(diff@.subrange(0, diff@.len() as int) =~= diff@);
        ConfusionMatrix { tp, fne: same.len() - tp, tn, fp: diff.len() - tn }
    }

    /// Number of wrong classifications.
    pub fn amount_false(&self) -> (r: usize)
        requires
            self.fne + self.fp <= usize::MAX,
        ensures
            r == self.fne + self.fp,
    {
        self.fne + self.fp
    }

    /// Number of right classifications.
    pub fn amount_pos(&self) -> (r: usize)
        requires
            self.tp + self.tn <= usize::MAX,
        ensures
            r == self.tp + self.tn,
    {
        self.tp + self.tn
    }
}

} // verus!
