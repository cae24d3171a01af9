//! Selection policy: which lines count as matches.
//!
//! Two mutually exclusive modes exist per run. Threshold mode keeps every
//! line whose score is at least the threshold (inclusive). Top-N mode keeps
//! the `min(n, len)` highest-scoring lines, breaking exact score ties in
//! favour of the lower index so the selection is deterministic.

use vstd::prelude::*;

verus! {

/// Number of `true` entries in a match mask.
pub open spec fn count_matches(mask: Seq<bool>) -> nat
    decreases mask.len(),
{
    if mask.len() == 0 {
        0
    } else {
        count_matches(mask.drop_last()) + (if mask.last() {
            1nat
        } else {
            0nat
        })
    }
}

/// The threshold-mode mask: line `i` matches iff `scores[i] >= threshold`.
pub open spec fn threshold_mask_spec(scores: Seq<i64>, threshold: i64) -> Seq<bool> {
    Seq::new(scores.len(), |i: int| scores[i] >= threshold)
}

/// Builds the boolean match mask for threshold mode.
pub fn threshold_mask(scores: &Vec<i64>, threshold: i64) -> (mask: Vec<bool>)
    ensures
        mask@ == threshold_mask_spec(scores@, threshold),
{
    let mut mask: Vec<bool> = Vec::new();
    let mut i: usize = 0;
    while i < scores.len()
        invariant
            i <= scores.len(),
            mask@.len() == i,
            forall|k: int| 0 <= k < i ==> mask@[k] == (scores@[k] >= threshold),
        decreases scores.len() - i,
    {
        mask.push(scores[i] >= threshold);
        i += 1;
    }
    proof {
        assert(mask@ =~= threshold_mask_spec(scores@, threshold));
    }
    mask
}

/// Counts the `true` entries of a mask (the number of selected lines).
pub fn count_selected(mask: &Vec<bool>) -> (n: usize)
    ensures
        n == count_matches(mask@),
{
    let mut n: usize = 0;
    let mut i: usize = 0;
    while i < mask.len()
        invariant
            i <= mask.len(),
            n == count_matches(mask@.take(i as int)),
            n <= i,
        decreases mask.len() - i,
    {
        proof {
            assert(mask@.take(i + 1).drop_last() =~= mask@.take(i as int));
        }
        if mask[i] {
            n += 1;
        }
        i += 1;
    }
    proof {
        assert(mask@.take(mask@.len() as int) =~= mask@);
    }
    n
}

/// `j` beats `i` in top-N order: a strictly higher score, or an equal score
/// at a lower index (the documented deterministic tie-break).
pub open spec fn beats(scores: Seq<i64>, j: int, i: int) -> bool {
    scores[j] > scores[i] || (scores[j] == scores[i] && j < i)
}

/// How many indices `j` in `[0, upto)`, other than `i` itself, beat `i`.
pub open spec fn rank_upto(scores: Seq<i64>, i: int, upto: int) -> nat
    decreases upto,
{
    if upto <= 0 {
        0
    } else {
        rank_upto(scores, i, upto - 1) + (if upto - 1 != i && beats(scores, upto - 1, i) {
            1nat
        } else {
            0nat
        })
    }
}

/// The top-N rank of index `i`: how many other lines beat it. Line `i` is
/// selected by top-N exactly when fewer than `n` lines beat it.
pub open spec fn rank(scores: Seq<i64>, i: int) -> nat {
    rank_upto(scores, i, scores.len() as int)
}

/// The top-N mask: line `i` is selected iff fewer than `n` other lines beat
/// it, so exactly the `min(n, len)` highest-scoring lines are selected, ties
/// going to the lower index.
pub open spec fn top_n_mask_spec(scores: Seq<i64>, n: int) -> Seq<bool> {
    Seq::new(scores.len(), |i: int| rank(scores, i) < n)
}

/// At most `upto` indices can beat `i`, and when `i` itself lies below
/// `upto`, at most `upto - 1` can.
proof fn lemma_rank_upto_bound(scores: Seq<i64>, i: int, upto: int)
    requires
        0 <= upto,
    ensures
        rank_upto(scores, i, upto) <= upto,
        0 <= i < upto ==> rank_upto(scores, i, upto) <= upto - 1,
    decreases upto,
{
    if upto > 0 {
        lemma_rank_upto_bound(scores, i, upto - 1);
    }
}

/// Builds the boolean match mask for top-N mode.
pub fn top_n_mask(scores: &Vec<i64>, n: usize) -> (mask: Vec<bool>)
    ensures
        mask@ == top_n_mask_spec(scores@, n as int),
{
    let mut mask: Vec<bool> = Vec::new();
    let mut i: usize = 0;
    while i < scores.len()
        invariant
            i <= scores.len(),
            mask@.len() == i,
            forall|k: int| 0 <= k < i ==> mask@[k] == (rank(scores@, k) < n),
        decreases scores.len() - i,
    {
        let mut r: usize = 0;
        let mut j: usize = 0;
        while j < scores.len()
            invariant
                i < scores.len(),
                j <= scores.len(),
                r == rank_upto(scores@, i as int, j as int),
                r <= j,
            decreases scores.len() - j,
        {
            if j != i && (scores[j] > scores[i] || (scores[j] == scores[i] && j < i)) {
                r += 1;
            }
            j += 1;
        }
        mask.push(r < n);
        i += 1;
    }
    proof {
        assert(mask@ =~= top_n_mask_spec(scores@, n as int));
    }
    mask
}

/// The minimum selected score, folded together with an initial cap of
/// `1.000`: the reported figure is `min(1000, min of the selected scores)`,
/// and the cap alone when nothing is selected.
pub open spec fn min_selected_spec(scores: Seq<i64>, mask: Seq<bool>) -> int
    decreases scores.len(),
{
    if scores.len() == 0 || mask.len() != scores.len() {
        1000
    } else {
        let rest = min_selected_spec(scores.drop_last(), mask.drop_last());
        if mask.last() && scores.last() < rest {
            scores.last() as int
        } else {
            rest
        }
    }
}

/// Minimum score among the selected lines, capped at `1.000` (thousandths),
/// as the top-N summary reports it.
pub fn min_selected(scores: &Vec<i64>, mask: &Vec<bool>) -> (m: i64)
    requires
        mask@.len() == scores@.len(),
    ensures
        m == min_selected_spec(scores@, mask@),
{
    let mut m: i64 = 1000;
    let mut i: usize = 0;
    while i < scores.len()
        invariant
            i <= scores.len(),
            mask@.len() == scores@.len(),
            m == min_selected_spec(scores@.take(i as int), mask@.take(i as int)),
        decreases scores.len() - i,
    {
        proof {
            assert(scores@.take(i + 1).drop_last() =~= scores@.take(i as int));
            assert(mask@.take(i + 1).drop_last() =~= mask@.take(i as int));
        }
        if mask[i] && scores[i] < m {
            m = scores[i];
        }
        i += 1;
    }
    proof {
        assert(scores@.take(scores@.len() as int) =~= scores@);
        assert(mask@.take(mask@.len() as int) =~= mask@);
    }
    m
}

/// The reported minimum is the cap itself or one of the scores.
pub proof fn lemma_min_selected_in(scores: Seq<i64>, mask: Seq<bool>)
    ensures
        min_selected_spec(scores, mask) == 1000 || exists|k: int|
            0 <= k < scores.len() && scores[k] == min_selected_spec(scores, mask),
    decreases scores.len(),
{
    if scores.len() > 0 && mask.len() == scores.len() {
        lemma_min_selected_in(scores.drop_last(), mask.drop_last());
        let rest = min_selected_spec(scores.drop_last(), mask.drop_last());
        if mask.last() && scores.last() < rest {
            assert(scores[scores.len() - 1] == min_selected_spec(scores, mask));
        } else {
            if rest != 1000 {
                let k = choose|k: int|
                    0 <= k < scores.drop_last().len() && scores.drop_last()[k] == rest;
                assert(scores[k] == rest);
            }
        }
    }
}

/// Top-N at the extremes: asking for at least as many lines as exist selects
/// every line, and asking for none selects none.
pub proof fn lemma_top_n_extremes(scores: Seq<i64>, n: int)
    ensures
        n >= scores.len() ==> forall|i: int|
            0 <= i < scores.len() ==> top_n_mask_spec(scores, n)[i],
        n == 0 ==> forall|i: int| 0 <= i < scores.len() ==> !top_n_mask_spec(scores, n)[i],
{
    assert forall|i: int| 0 <= i < scores.len() && n >= scores.len() implies top_n_mask_spec(
        scores,
        n,
    )[i] by {
        lemma_rank_upto_bound(scores, i, scores.len() as int);
    }
}

/// Count under a pointwise-smaller mask is no larger.
proof fn lemma_count_pointwise_le(a: Seq<bool>, b: Seq<bool>)
    requires
        a.len() == b.len(),
        forall|k: int| 0 <= k < b.len() ==> (b[k] ==> a[k]),
    ensures
        count_matches(b) <= count_matches(a),
    decreases a.len(),
{
    if a.len() > 0 {
        assert(forall|k: int|
            0 <= k < b.drop_last().len() ==> (b.drop_last()[k] ==> a.drop_last()[k]));
        lemma_count_pointwise_le(a.drop_last(), b.drop_last());
    }
}

/// Threshold selection is monotonic: raising the threshold never increases
/// the number of selected lines.
pub proof fn lemma_threshold_monotonic(scores: Seq<i64>, lo: i64, hi: i64)
    requires
        lo <= hi,
    ensures
        count_matches(threshold_mask_spec(scores, hi)) <= count_matches(
            threshold_mask_spec(scores, lo),
        ),
{
    lemma_count_pointwise_le(threshold_mask_spec(scores, lo), threshold_mask_spec(scores, hi));
}

} // verus!
