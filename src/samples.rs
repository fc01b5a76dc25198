use vstd::prelude::*;

use crate::confusion::Distance;
use crate::threshold::Distances;

verus! {

/// Fixed-point unit of embedding coordinates: a coordinate `x` is held as
/// `x * FIXED_POINT_UNIT`, rounded to an integer.
pub const FIXED_POINT_UNIT: u32 = 65536;

/// Two embeddings, in fixed-point form, and whether they show the same person.
#[derive(Clone, Debug)]
pub struct PairSample {
    pub same_person: bool,
    pub emb1: Vec<i32>,
    pub emb2: Vec<i32>,
}

/// Largest square of the difference of two `i32` values.
pub open spec fn max_square() -> int {
    0xFFFF_FFFE_0000_0001
}

/// Squared difference of two coordinates.
pub open spec fn sq_diff(a: i32, b: i32) -> int {
    (a - b) * (a - b)
}

/// Distance of two embeddings over the dimensions listed in `idx`:
/// the sum of the squared differences.
pub open spec fn subset_dist(e1: Seq<i32>, e2: Seq<i32>, idx: Seq<usize>) -> int
    decreases idx.len(),
{
    if idx.len() == 0 {
        0
    } else {
        subset_dist(e1, e2, idx.drop_last()) + sq_diff(e1[idx.last() as int], e2[idx.last() as int])
    }
}

/// Every listed dimension is below `dim`.
pub open spec fn indices_below(idx: Seq<usize>, dim: nat) -> bool {
    forall|i: int| 0 <= i < idx.len() ==> #[trigger] idx[i] < dim
}

/// Every sample holds two embeddings of length `dim`.
pub open spec fn samples_wf(samples: Seq<PairSample>, dim: nat) -> bool {
    forall|i: int|
        0 <= i < samples.len() ==> (#[trigger] samples[i]).emb1@.len() == dim
            && samples[i].emb2@.len() == dim
}

/// The distance of one sample over `idx`.
pub open spec fn sample_dist(s: PairSample, idx: Seq<usize>) -> Distance {
    subset_dist(s.emb1@, s.emb2@, idx) as Distance
}

/// The distances over `idx` of the same-person samples, in order.
pub open spec fn same_dists(samples: Seq<PairSample>, idx: Seq<usize>) -> Seq<Distance>
    decreases samples.len(),
{
    if samples.len() == 0 {
        Seq::empty()
    } else if samples.last().same_person {
        same_dists(samples.drop_last(), idx).push(sample_dist(samples.last(), idx))
    } else {
        same_dists(samples.drop_last(), idx)
    }
}

/// The distances over `idx` of the different-person samples, in order.
pub open spec fn diff_dists(samples: Seq<PairSample>, idx: Seq<usize>) -> Seq<Distance>
    decreases samples.len(),
{
    if samples.len() == 0 {
        Seq::empty()
    } else if !samples.last().same_person {
        diff_dists(samples.drop_last(), idx).push(sample_dist(samples.last(), idx))
    } else {
        diff_dists(samples.drop_last(), idx)
    }
}

/// Both populations together are as many as the samples.
pub proof fn lemma_dists_len(samples: Seq<PairSample>, idx: Seq<usize>)
    ensures
        same_dists(samples, idx).len() + diff_dists(samples, idx).len() == samples.len(),
    decreases samples.len(),
{
    if samples.len() > 0 {
        lemma_dists_len(samples.drop_last(), idx);
    }
}

/// A squared coordinate difference stays within `max_square`.
pub proof fn lemma_sq_diff_bound(a: i32, b: i32)
    ensures
        0 <= sq_diff(a, b) <= max_square(),
{
    let d: int = a - b;
    assert(-0xFFFF_FFFF <= d <= 0xFFFF_FFFF);
    assert(0 <= d * d <= 0xFFFF_FFFF * 0xFFFF_FFFF) by (nonlinear_arith)
        requires
            -0xFFFF_FFFF <= d <= 0xFFFF_FFFF,
    ;
}

/// Squared difference of two coordinates.
fn square_diff(a: i32, b: i32) -> (r: u128)
    ensures
        r == sq_diff(a, b),
{
    proof {
        lemma_sq_diff_bound(a, b);
    }
    let d: i64 = a as i64 - b as i64;
    let sq: i128 = (d as i128) * (d as i128);
    sq as u128
}

/// Distance of a sample's two embeddings over the dimensions in `idx`.
pub fn subset_distance(s: &PairSample, idx: &Vec<usize>) -> (r: Distance)
    requires
        indices_below(idx@, s.emb1@.len()),
        indices_below(idx@, s.emb2@.len()),
    ensures
        r == subset_dist(s.emb1@, s.emb2@, idx@),
{
    let mut acc: u128 = 0;
    let mut k: usize = 0;
    while k < idx.len()
        invariant
            k <= idx@.len(),
            indices_below(idx@, s.emb1@.len()),
            indices_below(idx@, s.emb2@.len()),
            acc == subset_dist(s.emb1@, s.emb2@, idx@.subrange(0, k as int)),
            acc <= k * max_square(),
        decreases idx@.len() - k,
    {
        let ghost pre = idx@.subrange(0, k as int + 1);
        assert(pre.drop_last() =~= idx@.subrange(0, k as int));
        assert(pre.last() == idx@[k as int]);
        let j = idx[k];
        let t = square_diff(s.emb1[j], s.emb2[j]);
        proof {
            lemma_sq_diff_bound(s.emb1@[j as int], s.emb2@[j as int]);
        }
        assert(k * max_square() + max_square() < 0x1_0000_0000_0000_0000 * 0x1_0000_0000_0000_0000);
        acc = acc + t;
        k = k + 1;
    }
    assert(idx@.subrange(0, idx@.len() as int) =~= idx@);
    acc
}

/// The common length of all embeddings of the samples; `None` when there
/// are no samples or two lengths differ.
pub fn common_dim(samples: &Vec<PairSample>) -> (r: Option<usize>)
    ensures
        r matches Some(d) ==> samples@.len() > 0 && samples_wf(samples@, d as nat),
        r is None ==> samples@.len() == 0 || forall|d: nat| !samples_wf(samples@, d),
{
    if samples.len() == 0 {
        return None;
    }
    let d = samples[0].emb1.len();
    let mut i: usize = 0;
    while i < samples.len()
        invariant
            i <= samples@.len(),
            samples@.len() > 0,
            d == samples@[0].emb1@.len(),
            forall|j: int| 0 <= j < i ==> (#[trigger] samples@[j]).emb1@.len() == d && samples@[j].emb2@.len() == d,
        decreases samples@.len() - i,
    {
        if samples[i].emb1.len() != d || samples[i].emb2.len() != d {
            proof {
                assert forall|e: nat| !samples_wf(samples@, e) by {
                    if samples_wf(samples@, e) {
                        assert(samples@[0].emb1@.len() == e);
                        assert(samples@[i as int].emb1@.len() == e);
                    }
                }
            }
            return None;
        }
        i = i + 1;
    }
    Some(d)
}

/// Splits the samples' distances over `idx` into the two populations.
pub fn distances_over(samples: &Vec<PairSample>, idx: &Vec<usize>, dim: usize) -> (r: Distances)
    requires
        samples_wf(samples@, dim as nat),
        indices_below(idx@, dim as nat),
    ensures
        r.same@ == same_dists(samples@, idx@),
        r.diff@ == diff_dists(samples@, idx@),
        r.fits(),
{
    let mut r = Distances::new();
    let mut k: usize = 0;
    while k < samples.len()
        invariant
            k <= samples@.len(),
            samples_wf(samples@, dim as nat),
            indices_below(idx@, dim as nat),
            r.same@ == same_dists(samples@.subrange(0, k as int), idx@),
            r.diff@ == diff_dists(samples@.subrange(0, k as int), idx@),
        decreases samples@.len() - k,
    {
        let ghost pre = samples@.subrange(0, k as int + 1);
        assert(pre.drop_last() =~= samples@.subrange(0, k as int));
        let s = &samples[k];
        assert(s.emb1@.len() == dim && s.emb2@.len() == dim);
        let d = subset_distance(s, idx);
        if s.same_person {
            r.add_same(d);
        } else {
            r.add_diff(d);
        }
        k = k + 1;
    }
    assert(samples@.subrange(0, samples@.len() as int) =~= samples@);
    proof {
        lemma_dists_len(samples@, idx@);
    }
    r
}

} // verus!
