use vstd::prelude::*;

use crate::samples::{lemma_sq_diff_bound, max_square, samples_wf, sq_diff, PairSample};

verus! {

/// Largest number of samples whose scores fit the `i128` accumulators.
pub const MAX_HEATMAP_SAMPLES: u64 = 0x4000_0000_0000_0000;

/// Signed contribution of dimension `d` to separating the classes: the squared
/// difference is subtracted for same-person samples and added otherwise.
pub open spec fn heat_score(samples: Seq<PairSample>, d: int) -> int
    decreases samples.len(),
{
    if samples.len() == 0 {
        0
    } else {
        let s = samples.last();
        let sq = sq_diff(s.emb1@[d], s.emb2@[d]);
        heat_score(samples.drop_last(), d) + if s.same_person {
            -sq
        } else {
            sq
        }
    }
}

/// The scores of the first `n` dimensions, shifted so that the smallest is
/// zero: dimension `i` maps to `values[i] / span` in `[0, 1]`.
#[derive(Clone, Debug)]
pub struct Heatmap {
    pub values: Vec<u128>,
    pub span: u128,
    pub min_score: i128,
    pub max_score: i128,
}

/// The score of dimension `d` over all samples.
fn dimension_score(samples: &Vec<PairSample>, d: usize, dim: usize) -> (r: i128)
    requires
        samples_wf(samples@, dim as nat),
        d < dim,
        samples@.len() <= MAX_HEATMAP_SAMPLES,
    ensures
        r == heat_score(samples@, d as int),
        -(MAX_HEATMAP_SAMPLES * max_square()) <= r <= MAX_HEATMAP_SAMPLES * max_square(),
{
    let mut acc: i128 = 0;
    let mut k: usize = 0;
    while k < samples.len()
        invariant
            k <= samples@.len(),
            samples@.len() <= MAX_HEATMAP_SAMPLES,
            samples_wf(samples@, dim as nat),
            d < dim,
            acc == heat_score(samples@.subrange(0, k as int), d as int),
            -(k * max_square()) <= acc <= k * max_square(),
        decreases samples@.len() - k,
    {
        let ghost pre = samples@.subrange(0, k as int + 1);
        assert(pre.drop_last() =~= samples@.subrange(0, k as int));
        let s = &samples[k];
        assert(s.emb1@.len() == dim && s.emb2@.len() == dim);
        proof {
            lemma_sq_diff_bound(s.emb1@[d as int], s.emb2@[d as int]);
        }
        let a = s.emb1[d] as i128;
        let b = s.emb2[d] as i128;
        let sq: i128 = (a - b) * (a - b);
        if s.same_person {
            acc = acc - sq;
        } else {
            acc = acc + sq;
        }
        k = k + 1;
    }
    assert(samples@.subrange(0, samples@.len() as int) =~= samples@);
    acc
}

/// Per-dimension separation scores of the first `amount_dim` dimensions,
/// min-max normalised: every value lies in `[0, span]`, the smallest score
/// maps to 0 and the largest to `span`.
pub fn heatmap(samples: &Vec<PairSample>, amount_dim: usize, dim: usize) -> (r: Heatmap)
    requires
        samples_wf(samples@, dim as nat),
        0 < amount_dim <= dim,
        samples@.len() <= MAX_HEATMAP_SAMPLES,
    ensures
        r.values@.len() == amount_dim,
        exists|i: int| 0 <= i < amount_dim && heat_score(samples@, i) == r.min_score,
        exists|i: int| 0 <= i < amount_dim && heat_score(samples@, i) == r.max_score,
        forall|i: int|
            0 <= i < amount_dim ==> r.min_score <= #[trigger] heat_score(samples@, i) <= r.max_score,
        r.span == r.max_score - r.min_score,
        forall|i: int| 0 <= i < amount_dim ==> #[trigger] r.values@[i] == heat_score(samples@, i) - r.min_score,
        forall|i: int| 0 <= i < amount_dim ==> #[trigger] r.values@[i] <= r.span,
        exists|i: int| 0 <= i < amount_dim && #[trigger] r.values@[i] == 0,
        exists|i: int| 0 <= i < amount_dim && #[trigger] r.values@[i] == r.span,
{
    let mut scores: Vec<i128> = Vec::new();
    let mut d: usize = 0;
    while d < amount_dim
        invariant
            d <= amount_dim <= dim,
            samples_wf(samples@, dim as nat),
            samples@.len() <= MAX_HEATMAP_SAMPLES,
            scores@.len() == d,
            forall|i: int| 0 <= i < d ==> #[trigger] scores@[i] == heat_score(samples@, i),
            forall|i: int|
                0 <= i < d ==> -(MAX_HEATMAP_SAMPLES * max_square()) <= #[trigger] scores@[i]
                    <= MAX_HEATMAP_SAMPLES * max_square(),
        decreases amount_dim - d,
    {
        let s = dimension_score(samples, d, dim);
        scores.push(s);
        d = d + 1;
    }
    let mut lo: i128 = scores[0];
    let mut hi: i128 = scores[0];
    let ghost mut lo_at: int = 0;
    let ghost mut hi_at: int = 0;
    let mut i: usize = 1;
    while i < amount_dim
        invariant
            1 <= i <= amount_dim,
            scores@.len() == amount_dim,
            0 <= lo_at < amount_dim && scores@[lo_at] == lo,
            0 <= hi_at < amount_dim && scores@[hi_at] == hi,
            forall|j: int| 0 <= j < i ==> lo <= #[trigger] scores@[j] <= hi,
            forall|a: int| 0 <= a < amount_dim ==> #[trigger] scores@[a] == heat_score(samples@, a),
        decreases amount_dim - i,
    {
        if scores[i] < lo {
            lo = scores[i];
            proof {
                lo_at = i as int;
            }
        }
        if scores[i] > hi {
            hi = scores[i];
            proof {
                hi_at = i as int;
            }
        }
        i = i + 1;
    }
    let mut values: Vec<u128> = Vec::new();
    let mut j: usize = 0;
    while j < amount_dim
        invariant
            j <= amount_dim,
            scores@.len() == amount_dim,
            forall|a: int| 0 <= a < amount_dim ==> lo <= #[trigger] scores@[a] <= hi,
            forall|a: int|
                0 <= a < amount_dim ==> -(MAX_HEATMAP_SAMPLES * max_square()) <= #[trigger] scores@[a]
                    <= MAX_HEATMAP_SAMPLES * max_square(),
            values@.len() == j,
            0 <= lo_at < amount_dim && scores@[lo_at] == lo,
            forall|a: int| 0 <= a < amount_dim ==> #[trigger] scores@[a] == heat_score(samples@, a),
            forall|a: int| 0 <= a < j ==> #[trigger] values@[a] == scores@[a] - lo,
        decreases amount_dim - j,
    {
        values.push((scores[j] - lo) as u128);
        j = j + 1;
    }
    assert forall|a: int| 0 <= a < amount_dim implies lo <= #[trigger] heat_score(samples@, a) <= hi by {
        assert(scores@[a] == heat_score(samples@, a));
    }
    assert(values@[lo_at] == 0);
    assert(0 <= lo_at < amount_dim && values@[lo_at] == 0);
    assert(values@[hi_at] == hi - lo);
    assert(heat_score(samples@, lo_at) == lo);
    assert(heat_score(samples@, hi_at) == hi);
    let r = Heatmap { values, span: (hi - lo) as u128, min_score: lo, max_score: hi };
    assert(r.values@[lo_at] == 0);
    assert(r.values@[hi_at] == r.span);
    r
}

} // verus!
