use vstd::prelude::*;

use crate::confusion::{count_gt, count_le, errors_at, lemma_counts_partition, ConfusionMatrix, Distance};

verus! {

/// Every observed distance of either population is a candidate threshold.
pub open spec fn is_candidate(same: Seq<Distance>, diff: Seq<Distance>, t: Distance) -> bool {
    (same + diff).contains(t)
}

/// `t` is the smallest candidate among those with the fewest errors.
pub open spec fn is_best_threshold(same: Seq<Distance>, diff: Seq<Distance>, t: Distance) -> bool {
    &&& is_candidate(same, diff, t)
    &&& forall|c: Distance|
        #[trigger] is_candidate(same, diff, c) ==> errors_at(same, diff, t) <= errors_at(same, diff, c)
    &&& forall|c: Distance|
        #[trigger] is_candidate(same, diff, c) && errors_at(same, diff, c) == errors_at(same, diff, t)
            ==> t <= c
}

/// `n` is the fewest errors that any candidate threshold makes.
pub open spec fn is_min_errors(same: Seq<Distance>, diff: Seq<Distance>, n: int) -> bool {
    &&& exists|t: Distance| #[trigger] is_candidate(same, diff, t) && errors_at(same, diff, t) == n
    &&& forall|c: Distance| #[trigger] is_candidate(same, diff, c) ==> n <= errors_at(same, diff, c)
}

/// The distances of one evaluation run, split by whether the pair shows the
/// same person.
#[derive(Clone, Debug)]
pub struct Distances {
    pub same: Vec<Distance>,
    pub diff: Vec<Distance>,
}

impl Distances {
    /// Both populations together fit the machine's counters.
    pub open spec fn fits(&self) -> bool {
        self.same@.len() + self.diff@.len() <= usize::MAX
    }

    /// No distances yet.
    pub fn new() -> (r: Distances)
        ensures
            r.same@ == Seq::<Distance>::empty(),
            r.diff@ == Seq::<Distance>::empty(),
    {
        Distances { same: Vec::new(), diff: Vec::new() }
    }

    /// Adds the distance of two images of the same person.
    pub fn add_same(&mut self, dist: Distance)
        ensures
            final(self).same@ == old(self).same@.push(dist),
            final(self).diff@ == old(self).diff@,
    {
        self.same.push(dist);
    }

    /// Adds the distance of two images of different people.
    pub fn add_diff(&mut self, dist: Distance)
        ensures
            final(self).same@ == old(self).same@,
            final(self).diff@ == old(self).diff@.push(dist),
    {
        self.diff.push(dist);
    }

    /// Number of errors that `threshold` makes.
    pub fn amount_false(&self, threshold: Distance) -> (r: usize)
        requires
            self.fits(),
        ensures
            r == errors_at(self.same@, self.diff@, threshold),
    {
        let m = ConfusionMatrix::new(threshold, &self.same, &self.diff);
        m.amount_false()
    }

    /// The candidate threshold with the fewest errors (the smallest one among
    /// equals), with its confusion matrix.
    pub fn get_confusion_matrix(&self) -> (r: (Distance, ConfusionMatrix))
        requires
            self.fits(),
            self.same@.len() + self.diff@.len() > 0,
        ensures
            is_best_threshold(self.same@, self.diff@, r.0),
            r.1 == ConfusionMatrix::spec_new(r.0, self.same@, self.diff@),
    {
        let ghost all = self.same@ + self.diff@;
        let n = self.same.len();
        let total = n + self.diff.len();
        let mut best: Distance = if n > 0 { self.same[0] } else { self.diff[0] };
        let mut best_err: usize = self.amount_false(best);
        assert(all.subrange(0, 1)[0] == best);
        let mut k: usize = 1;
        while k < total
            invariant
                all == self.same@ + self.diff@,
                n == self.same@.len(),
                total == all.len(),
                self.fits(),
                1 <= k <= total,
                all.subrange(0, k as int).contains(best),
                best_err == errors_at(self.same@, self.diff@, best),
                forall|i: int|
                    0 <= i < k ==> best_err <= errors_at(self.same@, self.diff@, #[trigger] all[i]),
                forall|i: int|
                    0 <= i < k && errors_at(self.same@, self.diff@, #[trigger] all[i]) == best_err
                        ==> best <= all[i],
            decreases total - k,
        {
            let c = if k < n { self.same[k] } else { self.diff[k - n] };
            assert(c == all[k as int]);
            let e = self.amount_false(c);
            proof {
                assert(all.subrange(0, k as int + 1)[k as int] == c);
                let ghost j = choose|j: int| 0 <= j < k && all.subrange(0, k as int)[j] == best;
                assert(all.subrange(0, k as int + 1)[j] == best);
            }
            if e < best_err || (e == best_err && c < best) {
                best = c;
                best_err = e;
            }
            k = k + 1;
        }
        assert(all.subrange(0, total as int) =~= all);
        assert forall|c: Distance| #[trigger] is_candidate(self.same@, self.diff@, c) implies
            errors_at(self.same@, self.diff@, best) <= errors_at(self.same@, self.diff@, c)
            && (errors_at(self.same@, self.diff@, c) == errors_at(self.same@, self.diff@, best)
                ==> best <= c) by {
            let i = choose|i: int| 0 <= i < all.len() && all[i] == c;
        }
        (best, ConfusionMatrix::new(best, &self.same, &self.diff))
    }

    /// The fewest errors that any candidate threshold makes.
    pub fn calc_return_false(&self) -> (r: usize)
        requires
            self.fits(),
            self.same@.len() + self.diff@.len() > 0,
        ensures
            is_min_errors(self.same@, self.diff@, r as int),
    {
        let (t, m) = self.get_confusion_matrix();
        proof {
            lemma_counts_partition(self.same@, t);
            lemma_counts_partition(self.diff@, t);
        }
        let r = m.amount_false();
        assert(is_candidate(self.same@, self.diff@, t) && errors_at(self.same@, self.diff@, t) == r);
        r
    }
}

} // verus!
