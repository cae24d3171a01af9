//! Batch run: select matches, merge windows, render blocks, and produce the
//! end-of-run summary and distribution diagnostics.

use crate::render::{blocks_output, lemma_texts_push, render_blocks, sep_chars, texts_of};
use crate::select::{
    count_matches, count_selected, lemma_min_selected_in, min_selected, min_selected_spec,
    threshold_mask, threshold_mask_spec, top_n_mask, top_n_mask_spec,
};
use crate::stats::{quantile, quantile_spec, sort_scores};
use crate::summary::{
    distribution_chars, distribution_report, suggestion_chars, suggestion_report,
    threshold_summary, threshold_summary_chars, top_summary, top_summary_chars,
};
use crate::window::{compute_windows, lemma_windows_properties, windows_spec};
use vstd::prelude::*;
use vstd::relations::total_ordering;
use vstd::seq_lib::lemma_sorted_unique;

verus! {

/// How matches are selected, fixed once per run. Top-N needs the whole
/// score population, so it exists only for batch runs.
#[derive(Clone, Copy, Debug, PartialEq, Eq, Structural)]
pub enum SelectionMode {
    /// Keep lines whose score is at least this threshold (thousandths).
    Threshold(i64),
    /// Keep the N highest-scoring lines, lower index winning ties.
    TopN(usize),
}

/// Parameters of one batch run.
#[derive(Clone, Copy, Debug, PartialEq, Eq, Structural)]
pub struct BatchParams {
    pub mode: SelectionMode,
    pub before: usize,
    pub after: usize,
    pub hide_scores: bool,
}

/// Everything a batch run prints: the block lines with separators and the
/// final `--` (standard output), and the three diagnostic lines.
pub struct BatchOutput {
    pub body: Vec<String>,
    pub summary: String,
    pub distribution: String,
    pub suggestion: String,
}

/// The match mask of the active selection mode.
pub open spec fn mask_spec(scores: Seq<i64>, mode: SelectionMode) -> Seq<bool> {
    match mode {
        SelectionMode::Threshold(t) => threshold_mask_spec(scores, t),
        SelectionMode::TopN(n) => top_n_mask_spec(scores, n as int),
    }
}

/// Every line a batch run writes to standard output: the rendered windows
/// of the selected mask, then the closing separator.
pub open spec fn batch_body_spec(
    lines: Seq<Seq<char>>,
    scores: Seq<i64>,
    mode: SelectionMode,
    before: int,
    after: int,
    hide: bool,
) -> Seq<Seq<char>> {
    blocks_output(
        lines,
        scores,
        mask_spec(scores, mode),
        hide,
        windows_spec(mask_spec(scores, mode), before, after),
    ).push(sep_chars())
}

/// The selection summary of the active mode.
pub open spec fn summary_spec(scores: Seq<i64>, mode: SelectionMode) -> Seq<char> {
    match mode {
        SelectionMode::Threshold(t) => threshold_summary_chars(
            count_matches(threshold_mask_spec(scores, t)),
            t as int,
        ),
        SelectionMode::TopN(n) => top_summary_chars(
            (if n as int <= scores.len() {
                n as int
            } else {
                scores.len() as int
            }) as nat,
            min_selected_spec(scores, top_n_mask_spec(scores, n as int)),
        ),
    }
}

/// Ascending order on scores.
pub open spec fn score_leq() -> spec_fn(i64, i64) -> bool {
    |x: i64, y: i64| x <= y
}

/// The score population in ascending order.
pub open spec fn sorted_scores(scores: Seq<i64>) -> Seq<i64> {
    scores.sort_by(score_leq())
}

/// The distribution report of a run: minimum, the fixed percentiles, and
/// maximum of the score population (zeros when it is empty).
pub open spec fn distribution_spec(scores: Seq<i64>) -> Seq<char> {
    let s = sorted_scores(scores);
    distribution_chars(
        if s.len() == 0 {
            0
        } else {
            s[0] as int
        },
        quantile_spec(s, 5000) as int,
        quantile_spec(s, 9000) as int,
        quantile_spec(s, 9500) as int,
        quantile_spec(s, 9900) as int,
        quantile_spec(s, 9990) as int,
        if s.len() == 0 {
            0
        } else {
            s.last() as int
        },
    )
}

/// The suggested-thresholds report of a run.
pub open spec fn suggestion_spec(scores: Seq<i64>) -> Seq<char> {
    let s = sorted_scores(scores);
    suggestion_chars(
        quantile_spec(s, 9500) as int,
        quantile_spec(s, 9900) as int,
        quantile_spec(s, 9990) as int,
        quantile_spec(s, 9999) as int,
    )
}

/// `<=` on scores is a total order.
proof fn lemma_score_leq_total()
    ensures
        total_ordering(score_leq()),
{
    let r = score_leq();
    assert forall|x: i64| #[trigger] r(x, x) by {}
}

/// Re-running the batch engine on the same lines, scores, mode and window
/// parameters yields identical output: every output line is pinned to one
/// function of the inputs, so two runs agree byte for byte.
pub proof fn lemma_batch_deterministic(
    lines: Seq<Seq<char>>,
    scores: Seq<i64>,
    mode: SelectionMode,
    before: int,
    after: int,
    hide: bool,
    body_a: Seq<Seq<char>>,
    body_b: Seq<Seq<char>>,
)
    requires
        body_a == batch_body_spec(lines, scores, mode, before, after, hide),
        body_b == batch_body_spec(lines, scores, mode, before, after, hide),
    ensures
        body_a == body_b,
{
}

/// Runs the whole batch pipeline over scored lines: builds the match mask,
/// merges and renders the context windows, and produces the summary and
/// distribution reports.
pub fn run_batch(lines: &Vec<String>, scores: &Vec<i64>, params: &BatchParams) -> (out:
    BatchOutput)
    requires
        scores@.len() == lines@.len(),
        scores@.len() <= 0x1000_0000_0000,
        forall|k: int| 0 <= k < scores@.len() ==> scores@[k] != i64::MIN,
        params.mode matches SelectionMode::Threshold(t) ==> t != i64::MIN,
    ensures
        texts_of(out.body@) == batch_body_spec(
            texts_of(lines@),
            scores@,
            params.mode,
            params.before as int,
            params.after as int,
            params.hide_scores,
        ),
        out.summary@ == summary_spec(scores@, params.mode),
        out.distribution@ == distribution_spec(scores@),
        out.suggestion@ == suggestion_spec(scores@),
{
    let mask = match params.mode {
        SelectionMode::Threshold(t) => threshold_mask(scores, t),
        SelectionMode::TopN(n) => top_n_mask(scores, n),
    };
    let summary = match params.mode {
        SelectionMode::Threshold(t) => {
            let c = count_selected(&mask);
            threshold_summary(c, t)
        },
        SelectionMode::TopN(n) => {
            let np = if n <= scores.len() {
                n
            } else {
                scores.len()
            };
            let ms = min_selected(scores, &mask);
            proof {
                lemma_min_selected_in(scores@, mask@);
            }
            top_summary(np, ms)
        },
    };
    let windows = compute_windows(&mask, params.before, params.after);
    proof {
        lemma_windows_properties(mask@, params.before as int, params.after as int);
    }
    let mut body = render_blocks(lines, scores, &mask, params.hide_scores, &windows);
    let ghost pb = body@;
    let closing = String::from_str("--");
    let ghost cv = closing;
    body.push(closing);
    proof {
        lemma_texts_push(pb, cv);
    }
    let srt = sort_scores(scores);
    proof {
        broadcast use vstd::seq_lib::group_to_multiset_ensures;

        lemma_score_leq_total();
        scores@.lemma_sort_by_ensures(score_leq());
        assert forall|i: int, j: int| 0 <= i < j < srt@.len() implies score_leq()(
            srt@[i],
            srt@[j],
        ) by {}
        lemma_sorted_unique(srt@, sorted_scores(scores@), score_leq());
        assert forall|i: int| 0 <= i < srt@.len() implies srt@[i] != i64::MIN by {
            assert(srt@.contains(srt@[i]));
            assert(srt@.to_multiset().count(srt@[i]) > 0);
            assert(scores@.to_multiset().count(srt@[i]) > 0);
            assert(scores@.contains(srt@[i]));
            let j = choose|j: int| 0 <= j < scores@.len() && scores@[j] == srt@[i];
        }
    }
    let n = srt.len();
    let mn = if n == 0 {
        0
    } else {
        srt[0]
    };
    let mx = if n == 0 {
        0
    } else {
        srt[n - 1]
    };
    let p50 = quantile(&srt, 5000);
    let p90 = quantile(&srt, 9000);
    let p95 = quantile(&srt, 9500);
    let p99 = quantile(&srt, 9900);
    let p999 = quantile(&srt, 9990);
    let p9999 = quantile(&srt, 9999);
    let distribution = distribution_report(mn, p50, p90, p95, p99, p999, mx);
    let suggestion = suggestion_report(p95, p99, p999, p9999);
    BatchOutput { body, summary, distribution, suggestion }
}

} // verus!
