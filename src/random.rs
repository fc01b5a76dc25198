use vstd::prelude::*;

use rand::seq::SliceRandom;

use crate::confusion::{ConfusionMatrix, Distance};
use crate::samples::{indices_below, samples_wf, PairSample};
use crate::search::{evaluate_subset, first_indices, subset_best_threshold, subset_matrix};

verus! {

/// Number of independent trials drawn for each subset size.
pub const TRIALS: usize = 100;

/// Relies on rand::seq::SliceRandom::shuffle with rand::thread_rng: the
/// elements are permuted in place by swaps, none added or lost.
#[verifier::external_body]
fn shuffle(v: &mut Vec<usize>)
    ensures
        final(v)@.to_multiset() == old(v)@.to_multiset(),
{
    v.shuffle(&mut rand::thread_rng());
}

/// A uniformly random choice of `k` distinct dimensions below `dim`: the
/// first `k` entries of a random permutation of `0..dim`.
pub fn random_subset(k: usize, dim: usize) -> (r: Vec<usize>)
    requires
        k <= dim,
    ensures
        r@.len() == k,
        r@.no_duplicates(),
        indices_below(r@, dim as nat),
{
    broadcast use vstd::seq_lib::group_to_multiset_ensures;

    let mut v = first_indices(dim);
    let ghost before = v@;
    assert(before.no_duplicates());
    shuffle(&mut v);
    proof {
        vstd::seq_lib::to_multiset_len(before);
        vstd::seq_lib::to_multiset_len(v@);
        before.lemma_multiset_has_no_duplicates();
        assert forall|x: usize| v@.to_multiset().contains(x) implies v@.to_multiset().count(x) == 1 by {}
        v@.lemma_multiset_has_no_duplicates_conv();
        assert forall|i: int| 0 <= i < v@.len() implies v@[i] < dim by {
            assert(v@.contains(v@[i]));
            vstd::seq_lib::to_multiset_contains(v@, v@[i]);
            vstd::seq_lib::to_multiset_contains(before, v@[i]);
            assert(before.contains(v@[i]));
        }
    }
    v.truncate(k);
    v
}

/// One random trial: the chosen dimensions and the best threshold over them.
#[derive(Clone, Debug)]
pub struct RandomTrial {
    pub indices: Vec<usize>,
    pub threshold: Distance,
    pub matrix: ConfusionMatrix,
}

/// `t` is a trial over `k` distinct dimensions below `dim` whose threshold
/// and matrix are the best ones over the chosen dimensions.
pub open spec fn is_trial(samples: Seq<PairSample>, k: nat, dim: nat, t: RandomTrial) -> bool {
    &&& t.indices@.len() == k
    &&& t.indices@.no_duplicates()
    &&& indices_below(t.indices@, dim)
    &&& subset_best_threshold(samples, t.indices@, t.threshold)
    &&& t.matrix == subset_matrix(samples, t.indices@, t.threshold)
}

/// `TRIALS` independent trials of `amount_dimensions` random dimensions;
/// every trial is reported as it came out.
pub fn random_dims(samples: &Vec<PairSample>, amount_dimensions: usize, dim: usize) -> (r: Vec<RandomTrial>)
    requires
        samples@.len() > 0,
        samples_wf(samples@, dim as nat),
        amount_dimensions <= dim,
    ensures
        r@.len() == TRIALS,
        forall|j: int| 0 <= j < r@.len() ==> is_trial(samples@, amount_dimensions as nat, dim as nat, #[trigger] r@[j]),
{
    let mut r: Vec<RandomTrial> = Vec::new();
    let mut n: usize = 0;
    while n < TRIALS
        invariant
            samples@.len() > 0,
            samples_wf(samples@, dim as nat),
            amount_dimensions <= dim,
            n <= TRIALS,
            r@.len() == n,
            forall|j: int| 0 <= j < r@.len() ==> is_trial(samples@, amount_dimensions as nat, dim as nat, #[trigger] r@[j]),
        decreases TRIALS - n,
    {
        let indices = random_subset(amount_dimensions, dim);
        let (threshold, matrix) = evaluate_subset(samples, &indices, dim);
        r.push(RandomTrial { indices, threshold, matrix });
        n = n + 1;
    }
    r
}

/// `random_dims` for every size `dim, dim - 1, ..., 1`, in that order.
pub fn random_dims_full(samples: &Vec<PairSample>, dim: usize) -> (r: Vec<Vec<RandomTrial>>)
    requires
        samples@.len() > 0,
        samples_wf(samples@, dim as nat),
    ensures
        r@.len() == dim,
        forall|j: int|
            0 <= j < r@.len() ==> (#[trigger] r@[j])@.len() == TRIALS && forall|t: int|
                0 <= t < r@[j]@.len() ==> is_trial(samples@, (dim - j) as nat, dim as nat, #[trigger] r@[j]@[t]),
{
    let mut r: Vec<Vec<RandomTrial>> = Vec::new();
    let mut k: usize = dim;
    while k > 0
        invariant
            samples@.len() > 0,
            samples_wf(samples@, dim as nat),
            k <= dim,
            r@.len() == dim - k,
            forall|j: int|
                0 <= j < r@.len() ==> (#[trigger] r@[j])@.len() == TRIALS && forall|t: int|
                    0 <= t < r@[j]@.len() ==> is_trial(samples@, (dim - j) as nat, dim as nat, #[trigger] r@[j]@[t]),
        decreases k,
    {
        let trials = random_dims(samples, k, dim);
        r.push(trials);
        k = k - 1;
    }
    r
}

} // verus!
