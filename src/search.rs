use vstd::prelude::*;

use crate::confusion::{ConfusionMatrix, Distance};
use crate::samples::{
    diff_dists, distances_over, indices_below, lemma_dists_len, same_dists, samples_wf, PairSample,
};
use crate::threshold::{is_best_threshold, is_min_errors};

verus! {

/// `e` is the fewest errors any threshold makes on the samples' distances over `idx`.
pub open spec fn subset_min_errors(samples: Seq<PairSample>, idx: Seq<usize>, e: int) -> bool {
    is_min_errors(same_dists(samples, idx), diff_dists(samples, idx), e)
}

/// `t` is the best threshold for the samples' distances over `idx`.
pub open spec fn subset_best_threshold(samples: Seq<PairSample>, idx: Seq<usize>, t: Distance) -> bool {
    is_best_threshold(same_dists(samples, idx), diff_dists(samples, idx), t)
}

/// The confusion matrix of `t` for the samples' distances over `idx`.
pub open spec fn subset_matrix(samples: Seq<PairSample>, idx: Seq<usize>, t: Distance) -> ConfusionMatrix {
    ConfusionMatrix::spec_new(t, same_dists(samples, idx), diff_dists(samples, idx))
}

/// The fewest errors is a single number.
pub proof fn lemma_min_errors_unique(samples: Seq<PairSample>, idx: Seq<usize>, a: int, b: int)
    requires
        subset_min_errors(samples, idx, a),
        subset_min_errors(samples, idx, b),
    ensures
        a == b,
{
    let s = same_dists(samples, idx);
    let d = diff_dists(samples, idx);
    let ta = choose|t: Distance| #[trigger] crate::threshold::is_candidate(s, d, t)
        && crate::confusion::errors_at(s, d, t) == a;
    let tb = choose|t: Distance| #[trigger] crate::threshold::is_candidate(s, d, t)
        && crate::confusion::errors_at(s, d, t) == b;
}

/// The dimensions `0, 1, ..., n - 1`.
pub open spec fn prefix_indices(n: nat) -> Seq<usize> {
    Seq::new(n, |i: int| i as usize)
}

/// The dimensions `0, 1, ..., n - 1`, in order.
pub fn first_indices(n: usize) -> (r: Vec<usize>)
    ensures
        r@ == prefix_indices(n as nat),
{
    let mut r: Vec<usize> = Vec::new();
    let mut i: usize = 0;
    while i < n
        invariant
            i <= n,
            r@ == prefix_indices(i as nat),
        decreases n - i,
    {
        r.push(i);
        i = i + 1;
        assert(r@ =~= prefix_indices(i as nat));
    }
    r
}

/// The best threshold for the distances over `idx`, with its confusion matrix.
pub fn evaluate_subset(samples: &Vec<PairSample>, idx: &Vec<usize>, dim: usize) -> (r: (Distance, ConfusionMatrix))
    requires
        samples@.len() > 0,
        samples_wf(samples@, dim as nat),
        indices_below(idx@, dim as nat),
    ensures
        subset_best_threshold(samples@, idx@, r.0),
        r.1 == subset_matrix(samples@, idx@, r.0),
{
    let d = distances_over(samples, idx, dim);
    proof {
        lemma_dists_len(samples@, idx@);
    }
    d.get_confusion_matrix()
}

/// The fewest errors that a threshold makes on the distances over `idx`.
pub fn subset_errors(samples: &Vec<PairSample>, idx: &Vec<usize>, dim: usize) -> (r: usize)
    requires
        samples@.len() > 0,
        samples_wf(samples@, dim as nat),
        indices_below(idx@, dim as nat),
    ensures
        subset_min_errors(samples@, idx@, r as int),
{
    let d = distances_over(samples, idx, dim);
    proof {
        lemma_dists_len(samples@, idx@);
    }
    d.calc_return_false()
}

/// One row of the truncation experiment: the first `dims` dimensions only.
#[derive(Clone, Copy, Debug)]
pub struct TruncationRow {
    pub dims: usize,
    pub threshold: Distance,
    pub matrix: ConfusionMatrix,
}

/// For `dims = dim, dim - 1, ..., 1`, the best threshold and its confusion
/// matrix when only the first `dims` dimensions are kept.
pub fn truncate_embeddings(samples: &Vec<PairSample>, dim: usize) -> (r: Vec<TruncationRow>)
    requires
        samples@.len() > 0,
        samples_wf(samples@, dim as nat),
    ensures
        r@.len() == dim,
        forall|j: int|
            0 <= j < r@.len() ==> {
                let row = #[trigger] r@[j];
                &&& row.dims == dim - j
                &&& subset_best_threshold(samples@, prefix_indices(row.dims as nat), row.threshold)
                &&& row.matrix == subset_matrix(samples@, prefix_indices(row.dims as nat), row.threshold)
            },
{
    let mut r: Vec<TruncationRow> = Vec::new();
    let mut n: usize = dim;
    while n > 0
        invariant
            n <= dim,
            samples@.len() > 0,
            samples_wf(samples@, dim as nat),
            r@.len() == dim - n,
            forall|j: int|
                0 <= j < r@.len() ==> {
                    let row = #[trigger] r@[j];
                    &&& row.dims == dim - j
                    &&& subset_best_threshold(samples@, prefix_indices(row.dims as nat), row.threshold)
                    &&& row.matrix == subset_matrix(samples@, prefix_indices(row.dims as nat), row.threshold)
                },
        decreases n,
    {
        let idx = first_indices(n);
        let (threshold, matrix) = evaluate_subset(samples, &idx, dim);
        r.push(TruncationRow { dims: n, threshold, matrix });
        n = n - 1;
    }
    r
}

} // verus!
