use vstd::prelude::*;

use crate::samples::{indices_below, samples_wf, PairSample};
use crate::search::{subset_errors, subset_min_errors};

verus! {

/// Adding `c` to `fixed` is the greedy choice among the unused dimensions
/// below `n`, and `e` is the fewest errors after adding it: every other
/// unused dimension does at least as badly, and every smaller one worse.
pub open spec fn greedy_choice(samples: Seq<PairSample>, fixed: Seq<usize>, n: nat, c: usize, e: int) -> bool {
    &&& c < n
    &&& !fixed.contains(c)
    &&& subset_min_errors(samples, fixed.push(c), e)
    &&& forall|c2: usize, e2: int|
        c2 < n && !fixed.contains(c2) && #[trigger] subset_min_errors(samples, fixed.push(c2), e2)
            ==> e <= e2 && (c2 < c ==> e < e2)
}

/// A list of distinct dimensions below `n` that is shorter than `n` misses one.
pub proof fn lemma_unused_index_exists(s: Seq<usize>, n: usize)
    requires
        s.no_duplicates(),
        indices_below(s, n as nat),
        s.len() < n,
    ensures
        exists|c: usize| c < n && !s.contains(c),
    decreases n,
{
    let top = (n - 1) as usize;
    if !s.contains(top) {
        assert(top < n && !s.contains(top));
    } else {
        let j = choose|j: int| 0 <= j < s.len() && s[j] == top;
        let t = s.remove(j);
        assert forall|a: int, b: int| 0 <= a < b < t.len() implies t[a] != t[b] by {
            let a2 = if a < j { a } else { a + 1 };
            let b2 = if b < j { b } else { b + 1 };
            assert(s[a2] != s[b2]);
        }
        assert forall|a: int| 0 <= a < t.len() implies t[a] < top by {
            let a2 = if a < j { a } else { a + 1 };
            assert(s[a2] != s[j]);
        }
        lemma_unused_index_exists(t, top);
        let c = choose|c: usize| c < top && !t.contains(c);
        if s.contains(c) {
            let k = choose|k: int| 0 <= k < s.len() && s[k] == c;
            assert(k != j);
            let k2 = if k < j { k } else { k - 1 };
            assert(t[k2] == c);
        }
    }
}

/// Whether `x` is listed in `v`.
pub fn contains_index(v: &Vec<usize>, x: usize) -> (r: bool)
    ensures
        r == v@.contains(x),
{
    let mut i: usize = 0;
    while i < v.len()
        invariant
            i <= v@.len(),
            forall|j: int| 0 <= j < i ==> v@[j] != x,
        decreases v@.len() - i,
    {
        if v[i] == x {
            return true;
        }
        i = i + 1;
    }
    false
}

/// One step of greedy forward selection over the dimensions below
/// `amount_dim`: adds the unused dimension whose addition leaves the fewest
/// errors (the smallest such dimension among equals) and returns that number
/// of errors. Earlier choices stay as they are.
pub fn greedy_step(samples: &Vec<PairSample>, fixed: &mut Vec<usize>, amount_dim: usize, dim: usize) -> (e: usize)
    requires
        samples@.len() > 0,
        samples_wf(samples@, dim as nat),
        amount_dim <= dim,
        old(fixed)@.len() < amount_dim,
        old(fixed)@.no_duplicates(),
        indices_below(old(fixed)@, amount_dim as nat),
    ensures
        final(fixed)@.len() == old(fixed)@.len() + 1,
        final(fixed)@ == old(fixed)@.push(final(fixed)@.last()),
        final(fixed)@.no_duplicates(),
        indices_below(final(fixed)@, amount_dim as nat),
        greedy_choice(samples@, old(fixed)@, amount_dim as nat, final(fixed)@.last(), e as int),
{
    let ghost f0 = fixed@;
    proof {
        lemma_unused_index_exists(f0, amount_dim);
    }
    let mut best: Option<(usize, usize)> = None;
    let mut c: usize = 0;
    while c < amount_dim
        invariant
            fixed@ == f0,
            c <= amount_dim,
            amount_dim <= dim,
            samples@.len() > 0,
            samples_wf(samples@, dim as nat),
            f0.no_duplicates(),
            indices_below(f0, amount_dim as nat),
            exists|u: usize| u < amount_dim && !f0.contains(u),
            (exists|u: usize| u < c && !f0.contains(u)) ==> best is Some,
            best matches Some((b, be)) ==> {
                &&& b < c
                &&& !f0.contains(b)
                &&& subset_min_errors(samples@, f0.push(b), be as int)
            },
            forall|c2: usize, e2: int|
                c2 < c && !f0.contains(c2) && #[trigger] subset_min_errors(samples@, f0.push(c2), e2)
                    ==> (best matches Some((b, be)) && be <= e2 && (c2 < b ==> be < e2)),
        decreases amount_dim - c,
    {
        if !contains_index(fixed, c) {
            let mut perm = fixed.clone();
            assert(perm@ =~= f0);
            perm.push(c);
            assert(indices_below(perm@, dim as nat)) by {
                assert forall|i: int| 0 <= i < perm@.len() implies perm@[i] < dim by {
                    if i < f0.len() {
                        assert(perm@[i] == f0[i]);
                    }
                }
            }
            let e = subset_errors(samples, &perm, dim);
            let ghost old_best = best;
            match best {
                Some((_, be)) => {
                    if e < be {
                        best = Some((c, e));
                    }
                },
                None => {
                    best = Some((c, e));
                },
            }
            proof {
                assert forall|c2: usize, e2: int|
                    c2 < c + 1 && !f0.contains(c2) && #[trigger] subset_min_errors(samples@, f0.push(c2), e2)
                        implies (best matches Some((b, be)) && be <= e2 && (c2 < b ==> be < e2)) by {
                    if c2 == c {
                        crate::search::lemma_min_errors_unique(samples@, f0.push(c2), e2, e as int);
                    }
                }
            }
        }
        c = c + 1;
    }
    let (b, be) = best.unwrap();
    fixed.push(b);
    proof {
        assert(fixed@ =~= f0.push(b));
        assert forall|i: int, j: int| 0 <= i < j < fixed@.len() implies fixed@[i] != fixed@[j] by {
            if j == f0.len() {
                assert(f0.contains(f0[i]));
            }
        }
        assert forall|i: int| 0 <= i < fixed@.len() implies fixed@[i] < amount_dim by {
            if i < f0.len() {
                assert(fixed@[i] == f0[i]);
            }
        }
    }
    be
}

/// The result of greedy forward selection: `fixed[i]` is the dimension
/// chosen at step `i + 1`, and `errors[i]` the fewest errors after it.
#[derive(Clone, Debug)]
pub struct GreedySelection {
    pub fixed: Vec<usize>,
    pub errors: Vec<usize>,
}

/// Greedy forward selection of `amount_dim` dimensions among the first
/// `amount_dim`, one at a time and without revisiting a choice.
pub fn best_elements_greedy(samples: &Vec<PairSample>, amount_dim: usize, dim: usize) -> (r: GreedySelection)
    requires
        samples@.len() > 0,
        samples_wf(samples@, dim as nat),
        amount_dim <= dim,
    ensures
        r.fixed@.len() == amount_dim,
        r.errors@.len() == amount_dim,
        r.fixed@.no_duplicates(),
        forall|i: int|
            0 <= i < amount_dim ==> greedy_choice(
                samples@,
                r.fixed@.subrange(0, i),
                amount_dim as nat,
                #[trigger] r.fixed@[i],
                r.errors@[i] as int,
            ),
{
    let mut fixed: Vec<usize> = Vec::new();
    let mut errors: Vec<usize> = Vec::new();
    while fixed.len() < amount_dim
        invariant
            samples@.len() > 0,
            samples_wf(samples@, dim as nat),
            amount_dim <= dim,
            fixed@.len() <= amount_dim,
            errors@.len() == fixed@.len(),
            fixed@.no_duplicates(),
            indices_below(fixed@, amount_dim as nat),
            forall|i: int|
                0 <= i < fixed@.len() ==> greedy_choice(
                    samples@,
                    fixed@.subrange(0, i),
                    amount_dim as nat,
                    #[trigger] fixed@[i],
                    errors@[i] as int,
                ),
        decreases amount_dim - fixed@.len(),
    {
        let ghost before = fixed@;
        let e = greedy_step(samples, &mut fixed, amount_dim, dim);
        errors.push(e);
        proof {
            assert forall|i: int| 0 <= i < fixed@.len() implies greedy_choice(
                samples@,
                fixed@.subrange(0, i),
                amount_dim as nat,
                #[trigger] fixed@[i],
                errors@[i] as int,
            ) by {
                if i < before.len() {
                    assert(fixed@.subrange(0, i) =~= before.subrange(0, i));
                    assert(fixed@[i] == before[i]);
                } else {
                    assert(fixed@.subrange(0, i) =~= before);
                }
            }
        }
    }
    GreedySelection { fixed, errors }
}

} // verus!
