use vstd::prelude::*;

use itertools::Itertools;

use crate::samples::{indices_below, samples_wf, PairSample};
use crate::search::{lemma_min_errors_unique, subset_errors, subset_min_errors};

verus! {

/// `c` lists `k` dimensions below `n` in strictly increasing order.
pub open spec fn is_combination(c: Seq<usize>, k: nat, n: nat) -> bool {
    &&& c.len() == k
    &&& forall|i: int| 0 <= i < c.len() ==> #[trigger] c[i] < n
    &&& forall|i: int, j: int| 0 <= i < j < c.len() ==> c[i] < c[j]
}

/// `a` comes before `b` in lexicographic order.
pub open spec fn lex_lt(a: Seq<usize>, b: Seq<usize>) -> bool {
    exists|p: int|
        0 <= p < a.len() && p < b.len() && a.subrange(0, p) == b.subrange(0, p) && #[trigger] a[p] < b[p]
}

/// Lexicographic order is asymmetric.
pub proof fn lemma_lex_asymmetric(a: Seq<usize>, b: Seq<usize>)
    requires
        lex_lt(a, b),
    ensures
        !lex_lt(b, a),
{
    let p = choose|p: int|
        0 <= p < a.len() && p < b.len() && a.subrange(0, p) == b.subrange(0, p) && #[trigger] a[p] < b[p];
    if lex_lt(b, a) {
        let q = choose|q: int|
            0 <= q < b.len() && q < a.len() && b.subrange(0, q) == a.subrange(0, q) && #[trigger] b[q] < a[q];
        if p < q {
            assert(b.subrange(0, q)[p] == a.subrange(0, q)[p]);
        } else if q < p {
            assert(a.subrange(0, p)[q] == b.subrange(0, p)[q]);
        }
    }
}

/// Relies on itertools::Itertools::combinations over the range `0..n`: it
/// yields every strictly increasing list of `k` indices below `n`, each once,
/// in lexicographic order.
#[verifier::external_body]
fn index_combinations(n: usize, k: usize) -> (r: Vec<Vec<usize>>)
    ensures
        forall|i: int| 0 <= i < r@.len() ==> is_combination(#[trigger] r@[i]@, k as nat, n as nat),
        forall|c: Seq<usize>| #[trigger] is_combination(c, k as nat, n as nat) ==> exists|i: int|
            0 <= i < r@.len() && r@[i]@ == c,
        forall|i: int, j: int| 0 <= i < j < r@.len() ==> lex_lt(#[trigger] r@[i]@, #[trigger] r@[j]@),
{
    (0..n).combinations(k).collect()
}

/// `best` is the first combination of `k` dimensions below `n`, in
/// lexicographic order, among those that leave the fewest errors `e`.
pub open spec fn is_best_combination(samples: Seq<PairSample>, k: nat, n: nat, best: Seq<usize>, e: int) -> bool {
    &&& is_combination(best, k, n)
    &&& subset_min_errors(samples, best, e)
    &&& forall|c: Seq<usize>, e2: int|
        is_combination(c, k, n) && #[trigger] subset_min_errors(samples, c, e2) ==> e <= e2 && (lex_lt(c, best)
            ==> e < e2)
}

/// The best combination of `k` dimensions and its errors, for one `k`.
#[derive(Clone, Debug)]
pub struct BestCombination {
    pub indices: Vec<usize>,
    pub errors: usize,
}

/// Tries every combination of `k` dimensions among the first `n` and keeps the
/// first one with the fewest errors.
pub fn best_combination(samples: &Vec<PairSample>, k: usize, n: usize, dim: usize) -> (r: BestCombination)
    requires
        samples@.len() > 0,
        samples_wf(samples@, dim as nat),
        k <= n,
        n <= dim,
    ensures
        is_best_combination(samples@, k as nat, n as nat, r.indices@, r.errors as int),
{
    let combos = index_combinations(n, k);
    let ghost first = Seq::new(k as nat, |i: int| i as usize);
    assert(is_combination(first, k as nat, n as nat));
    assert(combos@.len() > 0);
    let mut best_i: usize = 0;
    let mut best_e: usize = subset_errors(samples, &combos[0], dim);
    let mut i: usize = 1;
    while i < combos.len()
        invariant
            samples@.len() > 0,
            samples_wf(samples@, dim as nat),
            n <= dim,
            1 <= i <= combos@.len(),
            best_i < i,
            forall|a: int| 0 <= a < combos@.len() ==> is_combination(#[trigger] combos@[a]@, k as nat, n as nat),
            forall|a: int, b: int| 0 <= a < b < combos@.len() ==> lex_lt(#[trigger] combos@[a]@, #[trigger] combos@[b]@),
            subset_min_errors(samples@, combos@[best_i as int]@, best_e as int),
            forall|a: int, e2: int|
                0 <= a < i && #[trigger] subset_min_errors(samples@, combos@[a]@, e2) ==> best_e <= e2 && (a
                    < best_i ==> best_e < e2),
        decreases combos@.len() - i,
    {
        assert(is_combination(combos@[i as int]@, k as nat, n as nat));
        let e = subset_errors(samples, &combos[i], dim);
        if e < best_e {
            best_i = i;
            best_e = e;
        }
        proof {
            assert forall|a: int, e2: int|
                0 <= a < i + 1 && #[trigger] subset_min_errors(samples@, combos@[a]@, e2) implies best_e <= e2
                    && (a < best_i ==> best_e < e2) by {
                if a == i {
                    lemma_min_errors_unique(samples@, combos@[a]@, e2, e as int);
                }
            }
        }
        i = i + 1;
    }
    let ghost best = combos@[best_i as int]@;
    assert forall|c: Seq<usize>, e2: int|
        is_combination(c, k as nat, n as nat) && #[trigger] subset_min_errors(samples@, c, e2) implies best_e
            <= e2 && (lex_lt(c, best) ==> best_e < e2) by {
        let a = choose|a: int| 0 <= a < combos@.len() && combos@[a]@ == c;
        assert(subset_min_errors(samples@, combos@[a]@, e2));
        if lex_lt(c, best) {
            if a > best_i {
                lemma_lex_asymmetric(best, c);
            } else if a == best_i {
                let p = choose|p: int|
                    0 <= p < c.len() && p < best.len() && c.subrange(0, p) == best.subrange(0, p) && #[trigger] c[p]
                        < best[p];
            }
        }
    }
    BestCombination { indices: combos[best_i].clone(), errors: best_e }
}

/// For every size `k = 0, 1, ..., amount_dim - 1`, the first combination of
/// `k` dimensions among the first `amount_dim` with the fewest errors.
pub fn best_elements_full(samples: &Vec<PairSample>, amount_dim: usize, dim: usize) -> (r: Vec<BestCombination>)
    requires
        samples@.len() > 0,
        samples_wf(samples@, dim as nat),
        amount_dim <= dim,
    ensures
        r@.len() == amount_dim,
        forall|k: int|
            0 <= k < amount_dim ==> is_best_combination(
                samples@,
                k as nat,
                amount_dim as nat,
                (#[trigger] r@[k]).indices@,
                r@[k].errors as int,
            ),
{
    let mut r: Vec<BestCombination> = Vec::new();
    let mut k: usize = 0;
    while k < amount_dim
        invariant
            samples@.len() > 0,
            samples_wf(samples@, dim as nat),
            amount_dim <= dim,
            k <= amount_dim,
            r@.len() == k,
            forall|j: int|
                0 <= j < k ==> is_best_combination(
                    samples@,
                    j as nat,
                    amount_dim as nat,
                    (#[trigger] r@[j]).indices@,
                    r@[j].errors as int,
                ),
        decreases amount_dim - k,
    {
        let b = best_combination(samples, k, amount_dim, dim);
        r.push(b);
        k = k + 1;
    }
    r
}

} // verus!
