use vstd::prelude::*;

use crate::confusion::{ConfusionMatrix, Distance};
use crate::samples::{indices_below, samples_wf, PairSample};
use crate::search::{evaluate_subset, first_indices, prefix_indices, subset_best_threshold, subset_matrix};

verus! {

/// `v * scale / unit`, rounded toward zero and then clamped to `[lo, hi]`.
pub open spec fn quantize_value(v: int, scale: int, unit: int, lo: int, hi: int) -> int {
    let t = if v >= 0 { (v * scale) / unit } else { -((-v * scale) / unit) };
    if t < lo {
        lo
    } else if t > hi {
        hi
    } else {
        t
    }
}

/// Every coordinate of `e` quantised.
pub open spec fn quantized(e: Seq<i32>, scale: int, unit: int, lo: i32, hi: i32) -> Seq<i32> {
    Seq::new(e.len(), |i: int| quantize_value(e[i] as int, scale, unit, lo as int, hi as int) as i32)
}

/// `q` holds the samples with every coordinate quantised.
pub open spec fn is_quantized(samples: Seq<PairSample>, q: Seq<PairSample>, scale: int, unit: int, lo: i32, hi: i32) -> bool {
    &&& q.len() == samples.len()
    &&& forall|i: int|
        0 <= i < q.len() ==> (#[trigger] q[i]).same_person == samples[i].same_person
            && q[i].emb1@ == quantized(samples[i].emb1@, scale, unit, lo, hi)
            && q[i].emb2@ == quantized(samples[i].emb2@, scale, unit, lo, hi)
}

/// `v * scale / unit`, rounded toward zero and then clamped to `[lo, hi]`.
pub fn quantize(v: i32, scale: u32, unit: u32, lo: i32, hi: i32) -> (r: i32)
    requires
        unit > 0,
        lo <= hi,
    ensures
        r == quantize_value(v as int, scale as int, unit as int, lo as int, hi as int),
{
    let m: u128 = if v >= 0 { v as u128 } else { (0i64 - v as i64) as u128 };
    assert(m <= 0x8000_0000);
    assert(m * scale <= 0x8000_0000 * 0xFFFF_FFFF) by (nonlinear_arith)
        requires
            m <= 0x8000_0000,
            scale <= 0xFFFF_FFFF,
    ;
    let p: u128 = m * (scale as u128) / (unit as u128);
    assert(p <= m * scale) by (nonlinear_arith)
        requires
            p == (m * scale) / (unit as int),
            unit >= 1,
    ;
    let t: i128 = if v >= 0 { p as i128 } else { 0i128 - p as i128 };
    if t < lo as i128 {
        lo
    } else if t > hi as i128 {
        hi
    } else {
        t as i32
    }
}

/// Every coordinate of `e` quantised.
pub fn quantize_embedding(e: &Vec<i32>, scale: u32, unit: u32, lo: i32, hi: i32) -> (r: Vec<i32>)
    requires
        unit > 0,
        lo <= hi,
    ensures
        r@ == quantized(e@, scale as int, unit as int, lo, hi),
{
    let mut r: Vec<i32> = Vec::new();
    let mut i: usize = 0;
    while i < e.len()
        invariant
            unit > 0,
            lo <= hi,
            i <= e@.len(),
            r@ =~= quantized(e@.subrange(0, i as int), scale as int, unit as int, lo, hi),
        decreases e@.len() - i,
    {
        let x = quantize(e[i], scale, unit, lo, hi);
        r.push(x);
        i = i + 1;
        assert(r@ =~= quantized(e@.subrange(0, i as int), scale as int, unit as int, lo, hi));
    }
    assert(e@.subrange(0, e@.len() as int) =~= e@);
    r
}

/// The samples with every coordinate quantised.
pub fn quantize_samples(samples: &Vec<PairSample>, scale: u32, unit: u32, lo: i32, hi: i32) -> (r: Vec<PairSample>)
    requires
        unit > 0,
        lo <= hi,
    ensures
        is_quantized(samples@, r@, scale as int, unit as int, lo, hi),
{
    let mut r: Vec<PairSample> = Vec::new();
    let mut i: usize = 0;
    while i < samples.len()
        invariant
            unit > 0,
            lo <= hi,
            i <= samples@.len(),
            r@.len() == i,
            forall|j: int|
                0 <= j < i ==> (#[trigger] r@[j]).same_person == samples@[j].same_person
                    && r@[j].emb1@ == quantized(samples@[j].emb1@, scale as int, unit as int, lo, hi)
                    && r@[j].emb2@ == quantized(samples@[j].emb2@, scale as int, unit as int, lo, hi),
        decreases samples@.len() - i,
    {
        let s = &samples[i];
        let emb1 = quantize_embedding(&s.emb1, scale, unit, lo, hi);
        let emb2 = quantize_embedding(&s.emb2, scale, unit, lo, hi);
        r.push(PairSample { same_person: s.same_person, emb1, emb2 });
        i = i + 1;
    }
    r
}

/// `lo` and `hi` are the smallest and largest coordinates of all embeddings
/// of the samples.
pub open spec fn is_value_range(samples: Seq<PairSample>, lo: i32, hi: i32) -> bool {
    &&& forall|i: int, d: int|
        0 <= i < samples.len() && 0 <= d < samples[i].emb1@.len() ==> lo <= #[trigger] samples[i].emb1@[d] <= hi
    &&& forall|i: int, d: int|
        0 <= i < samples.len() && 0 <= d < samples[i].emb2@.len() ==> lo <= #[trigger] samples[i].emb2@[d] <= hi
    &&& exists|i: int, d: int|
        #![trigger samples[i].emb1@[d]]
        0 <= i < samples.len() && 0 <= d < samples[i].emb1@.len() && 0 <= d < samples[i].emb2@.len()
            && (samples[i].emb1@[d] == lo || samples[i].emb2@[d] == lo)
    &&& exists|i: int, d: int|
        #![trigger samples[i].emb1@[d]]
        0 <= i < samples.len() && 0 <= d < samples[i].emb1@.len() && 0 <= d < samples[i].emb2@.len()
            && (samples[i].emb1@[d] == hi || samples[i].emb2@[d] == hi)
}

/// The smallest and largest coordinates of all embeddings of the samples.
pub fn value_range(samples: &Vec<PairSample>, dim: usize) -> (r: (i32, i32))
    requires
        samples@.len() > 0,
        dim > 0,
        samples_wf(samples@, dim as nat),
    ensures
        is_value_range(samples@, r.0, r.1),
{
    let mut lo: i32 = samples[0].emb1[0];
    let mut hi: i32 = lo;
    let ghost mut lo_at: (int, int) = (0, 0);
    let ghost mut hi_at: (int, int) = (0, 0);
    let mut i: usize = 0;
    while i < samples.len()
        invariant
            i <= samples@.len(),
            samples@.len() > 0,
            dim > 0,
            samples_wf(samples@, dim as nat),
            0 <= lo_at.0 < samples@.len() && 0 <= lo_at.1 < dim,
            samples@[lo_at.0].emb1@[lo_at.1] == lo || samples@[lo_at.0].emb2@[lo_at.1] == lo,
            0 <= hi_at.0 < samples@.len() && 0 <= hi_at.1 < dim,
            samples@[hi_at.0].emb1@[hi_at.1] == hi || samples@[hi_at.0].emb2@[hi_at.1] == hi,
            forall|a: int, d: int|
                #![trigger samples@[a].emb1@[d]]
                #![trigger samples@[a].emb2@[d]]
                0 <= a < i && 0 <= d < dim ==> lo <= samples@[a].emb1@[d] <= hi && lo <= samples@[a].emb2@[d] <= hi,
        decreases samples@.len() - i,
    {
        let s = &samples[i];
        assert(s.emb1@.len() == dim && s.emb2@.len() == dim);
        let mut d: usize = 0;
        while d < dim
            invariant
                i < samples@.len(),
                s == samples@[i as int],
                s.emb1@.len() == dim && s.emb2@.len() == dim,
                d <= dim,
                samples_wf(samples@, dim as nat),
                0 <= lo_at.0 < samples@.len() && 0 <= lo_at.1 < dim,
                samples@[lo_at.0].emb1@[lo_at.1] == lo || samples@[lo_at.0].emb2@[lo_at.1] == lo,
                0 <= hi_at.0 < samples@.len() && 0 <= hi_at.1 < dim,
                samples@[hi_at.0].emb1@[hi_at.1] == hi || samples@[hi_at.0].emb2@[hi_at.1] == hi,
                forall|a: int, e: int|
                    #![trigger samples@[a].emb1@[e]]
                    #![trigger samples@[a].emb2@[e]]
                    0 <= a < i && 0 <= e < dim ==> lo <= samples@[a].emb1@[e] <= hi && lo <= samples@[a].emb2@[e] <= hi,
                forall|e: int| 0 <= e < d ==> lo <= #[trigger] s.emb1@[e] <= hi && lo <= s.emb2@[e] <= hi,
            decreases dim - d,
        {
            let a = s.emb1[d];
            let b = s.emb2[d];
            if a < lo {
                lo = a;
                proof {
                    lo_at = (i as int, d as int);
                }
            }
            if a > hi {
                hi = a;
                proof {
                    hi_at = (i as int, d as int);
                }
            }
            if b < lo {
                lo = b;
                proof {
                    lo_at = (i as int, d as int);
                }
            }
            if b > hi {
                hi = b;
                proof {
                    hi_at = (i as int, d as int);
                }
            }
            d = d + 1;
        }
        i = i + 1;
    }
    assert(samples@[lo_at.0].emb1@.len() == dim);
    assert(samples@[hi_at.0].emb1@.len() == dim);
    (lo, hi)
}

/// Quantised samples keep the lengths of their embeddings.
proof fn lemma_quantized_wf(samples: Seq<PairSample>, q: Seq<PairSample>, scale: int, unit: int, lo: i32, hi: i32, dim: nat)
    requires
        samples_wf(samples, dim),
        is_quantized(samples, q, scale, unit, lo, hi),
    ensures
        samples_wf(q, dim),
{
    assert forall|i: int| 0 <= i < q.len() implies (#[trigger] q[i]).emb1@.len() == dim && q[i].emb2@.len() == dim by {
        assert(samples[i].emb1@.len() == dim);
    }
}

/// Exclusive upper end of the scales that the quantisation experiment tries.
pub const QUANT_SCALE_END: u32 = 200;

/// One row of the quantisation experiment.
#[derive(Clone, Copy, Debug)]
pub struct QuantRow {
    pub scale: u32,
    pub min_value: i32,
    pub max_value: i32,
    pub threshold: Distance,
    pub matrix: ConfusionMatrix,
}

/// `row` reports quantising the samples at `row.scale`: the range of the
/// quantised coordinates, and the best threshold over all `dim` dimensions.
pub open spec fn is_quant_row(samples: Seq<PairSample>, dim: nat, unit: int, row: QuantRow) -> bool {
    exists|q: Seq<PairSample>|
        #[trigger] is_quantized(samples, q, row.scale as int, unit, i32::MIN, i32::MAX)
            && is_value_range(q, row.min_value, row.max_value)
            && subset_best_threshold(q, prefix_indices(dim), row.threshold)
            && row.matrix == subset_matrix(q, prefix_indices(dim), row.threshold)
}

/// The quantisation experiment: the best threshold over all dimensions of the
/// samples as they are, then for every scale `1, 2, ..., QUANT_SCALE_END - 1`
/// the same over the samples quantised at that scale.
pub fn quant(samples: &Vec<PairSample>, dim: usize, unit: u32) -> (r: ((Distance, ConfusionMatrix), Vec<QuantRow>))
    requires
        samples@.len() > 0,
        dim > 0,
        unit > 0,
        samples_wf(samples@, dim as nat),
    ensures
        subset_best_threshold(samples@, prefix_indices(dim as nat), r.0.0),
        r.0.1 == subset_matrix(samples@, prefix_indices(dim as nat), r.0.0),
        r.1@.len() == QUANT_SCALE_END - 1,
        forall|j: int|
            0 <= j < r.1@.len() ==> (#[trigger] r.1@[j]).scale == j + 1 && is_quant_row(
                samples@,
                dim as nat,
                unit as int,
                r.1@[j],
            ),
{
    let all = first_indices(dim);
    let baseline = evaluate_subset(samples, &all, dim);
    let mut rows: Vec<QuantRow> = Vec::new();
    let mut scale: u32 = 1;
    while scale < QUANT_SCALE_END
        invariant
            samples@.len() > 0,
            dim > 0,
            unit > 0,
            samples_wf(samples@, dim as nat),
            all@ == prefix_indices(dim as nat),
            1 <= scale <= QUANT_SCALE_END,
            rows@.len() == scale - 1,
            forall|j: int|
                0 <= j < rows@.len() ==> (#[trigger] rows@[j]).scale == j + 1 && is_quant_row(
                    samples@,
                    dim as nat,
                    unit as int,
                    rows@[j],
                ),
        decreases QUANT_SCALE_END - scale,
    {
        let q = quantize_samples(samples, scale, unit, i32::MIN, i32::MAX);
        proof {
            lemma_quantized_wf(samples@, q@, scale as int, unit as int, i32::MIN, i32::MAX, dim as nat);
        }
        let (min_value, max_value) = value_range(&q, dim);
        let (threshold, matrix) = evaluate_subset(&q, &all, dim);
        let row = QuantRow { scale, min_value, max_value, threshold, matrix };
        assert(is_quantized(samples@, q@, row.scale as int, unit as int, i32::MIN, i32::MAX));
        rows.push(row);
        scale = scale + 1;
    }
    (baseline, rows)
}

/// Scale of the compact fixed-subset representation.
pub const PROPOSED_SCALE: u32 = 70;

/// The fixed subset of dimensions of the compact representation.
pub open spec fn proposed_subset() -> Seq<usize> {
    seq![
        7usize, 9, 11, 21, 23, 30, 33, 35, 60, 61, 68, 84, 87, 92, 100, 120, 133, 134, 136, 156, 163, 165, 167,
        172, 180, 193, 202, 208, 209, 210, 211, 220, 241, 249, 262, 264, 265, 268, 276, 279, 280, 281, 283,
        294, 308, 322, 324, 325, 327, 338, 354, 360, 364, 366, 371, 382, 408, 420, 421, 427, 433, 458, 464,
        469, 470, 478, 479, 485, 488, 490,
    ]
}

/// The fixed subset of dimensions of the compact representation.
pub fn proposed_indices() -> (r: Vec<usize>)
    ensures
        r@ == proposed_subset(),
        indices_below(r@, 491),
{
    let r = vec![
        7usize, 9, 11, 21, 23, 30, 33, 35, 60, 61, 68, 84, 87, 92, 100, 120, 133, 134, 136, 156, 163, 165, 167,
        172, 180, 193, 202, 208, 209, 210, 211, 220, 241, 249, 262, 264, 265, 268, 276, 279, 280, 281, 283,
        294, 308, 322, 324, 325, 327, 338, 354, 360, 364, 366, 371, 382, 408, 420, 421, 427, 433, 458, 464,
        469, 470, 478, 479, 485, 488, 490,
    ];
    assert(r@ =~= proposed_subset());
    r
}

/// The best threshold over the fixed subset once the samples are quantised
/// at `PROPOSED_SCALE` into the range of `i8`.
pub fn proposed(samples: &Vec<PairSample>, dim: usize, unit: u32) -> (r: (Distance, ConfusionMatrix))
    requires
        samples@.len() > 0,
        dim > 490,
        unit > 0,
        samples_wf(samples@, dim as nat),
    ensures
        exists|q: Seq<PairSample>|
            #[trigger] is_quantized(samples@, q, PROPOSED_SCALE as int, unit as int, -128i32, 127i32)
                && subset_best_threshold(q, proposed_subset(), r.0)
                && r.1 == subset_matrix(q, proposed_subset(), r.0),
{
    let q = quantize_samples(samples, PROPOSED_SCALE, unit, -128, 127);
    proof {
        lemma_quantized_wf(samples@, q@, PROPOSED_SCALE as int, unit as int, -128i32, 127i32, dim as nat);
    }
    let idx = proposed_indices();
    let r = evaluate_subset(&q, &idx, dim);
    assert(is_quantized(samples@, q@, PROPOSED_SCALE as int, unit as int, -128i32, 127i32));
    r
}

/// The coordinates of `e` at the listed dimensions, in order.
pub fn project(e: &Vec<i32>, idx: &Vec<usize>) -> (r: Vec<i32>)
    requires
        indices_below(idx@, e@.len()),
    ensures
        r@ == Seq::new(idx@.len(), |k: int| e@[idx@[k] as int]),
{
    let mut r: Vec<i32> = Vec::new();
    let mut k: usize = 0;
    while k < idx.len()
        invariant
            k <= idx@.len(),
            indices_below(idx@, e@.len()),
            r@ =~= Seq::new(k as nat, |j: int| e@[idx@[j] as int]),
        decreases idx@.len() - k,
    {
        r.push(e[idx[k]]);
        k = k + 1;
        assert(r@ =~= Seq::new(k as nat, |j: int| e@[idx@[j] as int]));
    }
    r
}

/// The compact record of a sample: its label and both embeddings quantised
/// at `PROPOSED_SCALE` into the range of `i8`, kept at the fixed subset only.
pub fn compact_sample(s: &PairSample, unit: u32) -> (r: (bool, Vec<i32>, Vec<i32>))
    requires
        unit > 0,
        s.emb1@.len() > 490,
        s.emb2@.len() > 490,
    ensures
        r.0 == s.same_person,
        r.1@ == Seq::new(proposed_subset().len(), |k: int| quantized(s.emb1@, PROPOSED_SCALE as int, unit as int, -128i32, 127i32)[proposed_subset()[k] as int]),
        r.2@ == Seq::new(proposed_subset().len(), |k: int| quantized(s.emb2@, PROPOSED_SCALE as int, unit as int, -128i32, 127i32)[proposed_subset()[k] as int]),
{
    let idx = proposed_indices();
    let q1 = quantize_embedding(&s.emb1, PROPOSED_SCALE, unit, -128, 127);
    let q2 = quantize_embedding(&s.emb2, PROPOSED_SCALE, unit, -128, 127);
    let a = project(&q1, &idx);
    let b = project(&q2, &idx);
    (s.same_person, a, b)
}

} // verus!
