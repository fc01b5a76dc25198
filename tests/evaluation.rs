use face_threshold::confusion::ConfusionMatrix;
use face_threshold::exhaustive::best_elements_full;
use face_threshold::greedy::{best_elements_greedy, greedy_step};
use face_threshold::heatmap::heatmap;
use face_threshold::quantize::{compact_sample, proposed_indices, quant, quantize, value_range};
use face_threshold::random::{random_dims, random_dims_full, random_subset, TRIALS};
use face_threshold::samples::{common_dim, distances_over, subset_distance, PairSample};
use face_threshold::search::{evaluate_subset, first_indices, subset_errors, truncate_embeddings};
use face_threshold::threshold::Distances;

fn sample(same: bool, a: Vec<i32>, b: Vec<i32>) -> PairSample {
    PairSample { same_person: same, emb1: a, emb2: b }
}

fn example_distances() -> Distances {
    let mut d = Distances::new();
    for x in [1u128, 4, 9] {
        d.add_same(x);
    }
    for x in [2u128, 5, 8] {
        d.add_diff(x);
    }
    d
}

#[test]
fn confusion_matrix_counts_at_threshold_four() {
    let same = vec![1u128, 4, 9];
    let diff = vec![2u128, 5, 8];
    let m = ConfusionMatrix::new(4, &same, &diff);
    assert_eq!(m, ConfusionMatrix { tp: 2, fne: 1, tn: 2, fp: 1 });
    assert_eq!(m.amount_false(), 2);
    assert_eq!(m.amount_pos(), 4);
}

#[test]
fn confusion_matrix_partitions_each_population() {
    let same = vec![3u128, 3, 7, 0, 12];
    let diff = vec![1u128, 9, 3];
    for t in 0u128..15 {
        let m = ConfusionMatrix::new(t, &same, &diff);
        assert_eq!(m.tp + m.fne, same.len());
        assert_eq!(m.tn + m.fp, diff.len());
    }
}

#[test]
fn confusion_matrix_of_empty_populations() {
    let m = ConfusionMatrix::new(5, &vec![], &vec![]);
    assert_eq!(m, ConfusionMatrix { tp: 0, fne: 0, tn: 0, fp: 0 });
}

#[test]
fn best_threshold_of_example_is_first_minimum() {
    let d = example_distances();
    let candidates = [1u128, 2, 4, 5, 8, 9];
    let errors: Vec<usize> = candidates.iter().map(|&t| d.amount_false(t)).collect();
    assert_eq!(errors, vec![2, 3, 2, 3, 4, 3]);
    let (t, m) = d.get_confusion_matrix();
    assert_eq!(t, 1);
    assert_eq!(m, ConfusionMatrix { tp: 1, fne: 2, tn: 3, fp: 0 });
    assert_eq!(d.calc_return_false(), 2);
    for &c in &candidates {
        assert!(d.calc_return_false() <= d.amount_false(c));
    }
}

#[test]
fn best_threshold_with_one_population_only() {
    let mut d = Distances::new();
    d.add_diff(6);
    d.add_diff(3);
    let (t, m) = d.get_confusion_matrix();
    assert_eq!(t, 3);
    assert_eq!(m, ConfusionMatrix { tp: 0, fne: 0, tn: 1, fp: 1 });
    assert_eq!(d.calc_return_false(), 1);
}

#[test]
fn best_threshold_with_equal_distances() {
    let mut d = Distances::new();
    d.add_same(5);
    d.add_diff(5);
    let (t, m) = d.get_confusion_matrix();
    assert_eq!(t, 5);
    assert_eq!(m, ConfusionMatrix { tp: 1, fne: 0, tn: 0, fp: 1 });
}

fn small_samples() -> Vec<PairSample> {
    vec![
        sample(true, vec![0, 0, 0], vec![1, 0, 5]),
        sample(true, vec![2, 2, 2], vec![2, 3, 0]),
        sample(false, vec![0, 0, 0], vec![0, 4, 1]),
        sample(false, vec![1, 1, 1], vec![4, 3, 2]),
    ]
}

#[test]
fn subset_distance_sums_squares() {
    let s = sample(true, vec![1, -2, 3], vec![4, 2, 3]);
    assert_eq!(subset_distance(&s, &vec![0, 1, 2]), 9 + 16);
    assert_eq!(subset_distance(&s, &vec![1]), 16);
    assert_eq!(subset_distance(&s, &vec![]), 0);
    let far = sample(false, vec![i32::MIN], vec![i32::MAX]);
    assert_eq!(subset_distance(&far, &vec![0, 0]), 2 * (u32::MAX as u128) * (u32::MAX as u128));
}

#[test]
fn distances_split_by_label() {
    let s = small_samples();
    let d = distances_over(&s, &vec![0, 1], 3);
    assert_eq!(d.same, vec![1, 1]);
    assert_eq!(d.diff, vec![16, 13]);
}

#[test]
fn common_dim_checks_lengths() {
    assert_eq!(common_dim(&small_samples()), Some(3));
    assert_eq!(common_dim(&vec![]), None);
    let mixed = vec![sample(true, vec![1, 2], vec![1, 2]), sample(false, vec![1], vec![1])];
    assert_eq!(common_dim(&mixed), None);
}

#[test]
fn evaluate_subset_over_first_dimension() {
    let s = small_samples();
    let (t, m) = evaluate_subset(&s, &vec![0], 3);
    // same: 1, 0; diff: 0, 9
    assert_eq!(t, 1);
    assert_eq!(m, ConfusionMatrix { tp: 2, fne: 0, tn: 1, fp: 1 });
    assert_eq!(subset_errors(&s, &vec![0], 3), 1);
    assert_eq!(subset_errors(&s, &vec![2], 3), 2);
}

#[test]
fn truncation_rows_count_down() {
    let s = small_samples();
    let rows = truncate_embeddings(&s, 3);
    let dims: Vec<usize> = rows.iter().map(|r| r.dims).collect();
    assert_eq!(dims, vec![3, 2, 1]);
    assert_eq!(rows[0].threshold, 5);
    assert_eq!(rows[2].threshold, 1);
    assert_eq!(rows[1].threshold, 1);
    assert_eq!(rows[1].matrix, ConfusionMatrix { tp: 2, fne: 0, tn: 2, fp: 0 });
    assert_eq!(first_indices(3), vec![0, 1, 2]);
}

#[test]
fn greedy_fixed_grows_by_one_per_step() {
    let s = small_samples();
    let mut fixed: Vec<usize> = Vec::new();
    for step in 1..=3 {
        let before = fixed.clone();
        greedy_step(&s, &mut fixed, 3, 3);
        assert_eq!(fixed.len(), step);
        assert_eq!(&fixed[..step - 1], &before[..]);
    }
    let mut sorted = fixed.clone();
    sorted.sort();
    assert_eq!(sorted, vec![0, 1, 2]);
}

#[test]
fn greedy_picks_first_best_dimension() {
    let s = small_samples();
    let g = best_elements_greedy(&s, 3, 3);
    // alone: dim 0 -> 1 error, dim 1 -> 0 errors, dim 2 -> 2 errors
    assert_eq!(g.fixed[0], 1);
    assert_eq!(g.errors[0], 0);
    assert_eq!(g.fixed.len(), 3);
    assert_eq!(g.errors.len(), 3);
    let empty = best_elements_greedy(&s, 0, 3);
    assert!(empty.fixed.is_empty());
}

#[test]
fn exhaustive_search_per_size() {
    let s = small_samples();
    let best = best_elements_full(&s, 3, 3);
    assert_eq!(best.len(), 3);
    assert_eq!(best[0].indices, Vec::<usize>::new());
    assert_eq!(best[0].errors, 2);
    assert_eq!(best[1].indices, vec![1]);
    assert_eq!(best[1].errors, 0);
    assert_eq!(best[2].indices, vec![0, 1]);
    assert_eq!(best[2].errors, 0);
}

#[test]
fn random_subsets_are_distinct_and_in_range() {
    let r = random_subset(4, 10);
    assert_eq!(r.len(), 4);
    let mut sorted = r.clone();
    sorted.sort();
    sorted.dedup();
    assert_eq!(sorted.len(), 4);
    assert!(r.iter().all(|&i| i < 10));
    let full = random_subset(10, 10);
    let mut all = full.clone();
    all.sort();
    assert_eq!(all, (0..10).collect::<Vec<usize>>());
}

#[test]
fn random_trials_report_every_trial() {
    let s = small_samples();
    let trials = random_dims(&s, 2, 3);
    assert_eq!(trials.len(), TRIALS);
    for t in &trials {
        assert_eq!(t.indices.len(), 2);
        assert_ne!(t.indices[0], t.indices[1]);
        assert_eq!(evaluate_subset(&s, &t.indices, 3), (t.threshold, t.matrix));
    }
    let full = random_dims_full(&s, 3);
    assert_eq!(full.len(), 3);
    for (j, trials) in full.iter().enumerate() {
        assert_eq!(trials.len(), TRIALS);
        assert!(trials.iter().all(|t| t.indices.len() == 3 - j));
    }
}

#[test]
fn heatmap_normalises_to_unit_range() {
    let s = small_samples();
    let h = heatmap(&s, 3, 3);
    // scores: dim0 = -1 + 0 + 0 + 9 = 8, dim1 = 0 - 1 + 16 + 4 = 19, dim2 = -25 - 4 + 1 + 1 = -27
    assert_eq!(h.min_score, -27);
    assert_eq!(h.max_score, 19);
    assert_eq!(h.span, 46);
    assert_eq!(h.values, vec![35, 46, 0]);
    assert!(h.values.iter().all(|&v| v <= h.span));
}

#[test]
fn heatmap_of_identical_scores() {
    let s = vec![sample(true, vec![1, 1], vec![1, 1])];
    let h = heatmap(&s, 2, 2);
    assert_eq!(h.span, 0);
    assert_eq!(h.values, vec![0, 0]);
}

#[test]
fn quantize_rounds_toward_zero_and_clamps() {
    assert_eq!(quantize(150, 1, 100, i32::MIN, i32::MAX), 1);
    assert_eq!(quantize(-150, 1, 100, i32::MIN, i32::MAX), -1);
    assert_eq!(quantize(-150, 70, 100, -128, 127), -105);
    assert_eq!(quantize(1000, 70, 100, -128, 127), 127);
    assert_eq!(quantize(-1000, 70, 100, -128, 127), -128);
    assert_eq!(quantize(i32::MIN, u32::MAX, 1, i32::MIN, i32::MAX), i32::MIN);
}

#[test]
fn value_range_over_all_coordinates() {
    let s = small_samples();
    assert_eq!(value_range(&s, 3), (0, 5));
}

#[test]
fn quant_rows_cover_every_scale() {
    let s = small_samples();
    let (baseline, rows) = quant(&s, 3, 1);
    assert_eq!(baseline, evaluate_subset(&s, &vec![0, 1, 2], 3));
    assert_eq!(rows.len(), 199);
    assert_eq!(rows[0].scale, 1);
    assert_eq!(rows[198].scale, 199);
    assert_eq!((rows[1].min_value, rows[1].max_value), (0, 10));
}

#[test]
fn compact_record_keeps_fixed_subset() {
    let idx = proposed_indices();
    assert_eq!(idx.len(), 70);
    assert_eq!(idx[0], 7);
    assert_eq!(idx[69], 490);
    let a: Vec<i32> = (0..512).map(|i| i * 10).collect();
    let b: Vec<i32> = vec![-1000; 512];
    let s = sample(false, a, b);
    let (same, x, y) = compact_sample(&s, 100);
    assert!(!same);
    assert_eq!(x[0], 49);
    assert_eq!(x[1], 63);
    assert_eq!(x[69], 127);
    assert!(y.iter().all(|&v| v == -128));
}

#[test]
fn random_subsets_are_shuffled() {
    let identity: Vec<usize> = (0..10).collect();
    let draws: Vec<Vec<usize>> = (0..20).map(|_| random_subset(10, 10)).collect();
    assert!(draws.iter().any(|d| *d != identity));
}
