use vecgrep::digits::{format_score, format_threshold, u64_dec};
use vecgrep::engine::{run_batch, BatchParams, SelectionMode};
use vecgrep::select::{count_selected, min_selected, threshold_mask, top_n_mask};
use vecgrep::stats::{quantile, sort_scores};
use vecgrep::summary::threshold_summary;
use vecgrep::window::compute_windows;

fn strings(v: &[&str]) -> Vec<String> {
    v.iter().map(|s| s.to_string()).collect()
}

#[test]
fn format_score_exact() {
    assert_eq!(format_score(700), "0.700");
    assert_eq!(format_score(0), "0.000");
    assert_eq!(format_score(1234), "1.234");
    assert_eq!(format_score(-45), "-0.045");
    assert_eq!(format_score(1000), "1.000");
}

#[test]
fn format_threshold_rounds_half_up() {
    assert_eq!(format_threshold(600), "0.60");
    assert_eq!(format_threshold(555), "0.56");
    assert_eq!(format_threshold(554), "0.55");
    assert_eq!(format_threshold(-4), "-0.00");
    assert_eq!(format_threshold(-45), "-0.05");
}

#[test]
fn decimal_digits() {
    assert_eq!(u64_dec(0), "0");
    assert_eq!(u64_dec(7), "7");
    assert_eq!(u64_dec(10500), "10500");
}

#[test]
fn threshold_mask_inclusive() {
    let scores: Vec<i64> = vec![499, 500, 501];
    let mask = threshold_mask(&scores, 500);
    assert_eq!(mask, vec![false, true, true]);
    assert_eq!(count_selected(&mask), 2);
}

#[test]
fn threshold_monotonic_counts() {
    let scores: Vec<i64> = vec![100, 300, 300, 700, 900];
    let low = count_selected(&threshold_mask(&scores, 200));
    let mid = count_selected(&threshold_mask(&scores, 300));
    let high = count_selected(&threshold_mask(&scores, 800));
    assert_eq!(low, 4);
    assert_eq!(mid, 4);
    assert_eq!(high, 1);
    assert!(mid <= low && high <= mid);
}

#[test]
fn top_n_extremes() {
    let scores: Vec<i64> = vec![100, 300, 200];
    assert_eq!(top_n_mask(&scores, 0), vec![false, false, false]);
    assert_eq!(top_n_mask(&scores, 3), vec![true, true, true]);
    assert_eq!(top_n_mask(&scores, 17), vec![true, true, true]);
}

#[test]
fn top_n_tie_break_lower_index() {
    let scores: Vec<i64> = vec![500, 500, 100];
    assert_eq!(top_n_mask(&scores, 1), vec![true, false, false]);
    assert_eq!(top_n_mask(&scores, 2), vec![true, true, false]);
}

#[test]
fn min_selected_caps_at_one() {
    let scores: Vec<i64> = vec![700, 200];
    assert_eq!(min_selected(&scores, &vec![true, true]), 200);
    assert_eq!(min_selected(&scores, &vec![false, false]), 1000);
    let high: Vec<i64> = vec![1200];
    assert_eq!(min_selected(&high, &vec![true]), 1000);
}

#[test]
fn windows_merge_overlapping() {
    let mask = vec![true, false, true];
    let ws = compute_windows(&mask, 0, 1);
    assert_eq!(ws.len(), 1);
    assert_eq!((ws[0].start, ws[0].end), (0, 3));
}

#[test]
fn windows_singletons_without_context() {
    let mask = vec![true, false, false, true];
    let ws = compute_windows(&mask, 0, 0);
    assert_eq!(ws.len(), 2);
    assert_eq!((ws[0].start, ws[0].end), (0, 1));
    assert_eq!((ws[1].start, ws[1].end), (3, 4));
}

#[test]
fn windows_empty_mask() {
    let ws = compute_windows(&vec![false, false], 5, 5);
    assert_eq!(ws.len(), 0);
}

#[test]
fn windows_clamped_at_edges() {
    let mask = vec![true, false, false, false, true];
    let ws = compute_windows(&mask, 2, 2);
    assert_eq!(ws.len(), 1);
    assert_eq!((ws[0].start, ws[0].end), (0, 5));
}

#[test]
fn quantile_extremes_are_min_and_max() {
    let scores: Vec<i64> = vec![700, 50, 200, 120];
    let srt = sort_scores(&scores);
    assert_eq!(srt, vec![50, 120, 200, 700]);
    assert_eq!(quantile(&srt, 0), 50);
    assert_eq!(quantile(&srt, 10000), 700);
    assert_eq!(quantile(&srt, 5000), 200);
    assert_eq!(quantile(&vec![], 5000), 0);
}

#[test]
fn summary_no_matches_text() {
    assert_eq!(
        threshold_summary(0, 600),
        "no matches above threshold 0.60"
    );
    assert_eq!(threshold_summary(3, 600), "matches: 3 (threshold 0.60)");
}

#[test]
fn scenario_threshold_with_before_context() {
    let lines = strings(&["cat", "dog", "car engine", "finance report"]);
    let scores: Vec<i64> = vec![120, 200, 700, 50];
    let params = BatchParams {
        mode: SelectionMode::Threshold(500),
        before: 1,
        after: 0,
        hide_scores: false,
    };
    let out = run_batch(&lines, &scores, &params);
    assert_eq!(out.body, strings(&["dog", "car engine\t[0.700]", "--"]));
    assert_eq!(out.summary, "matches: 1 (threshold 0.50)");
    assert_eq!(
        out.distribution,
        "overall distribution (all lines): min 0.050  p50 0.200  p90 0.700  p95 0.700  p99 0.700  p99.9 0.700  max 0.700"
    );
    assert_eq!(
        out.suggestion,
        "suggested thresholds for top k%% lines: 5%%→0.700  1%%→0.700  0.1%%→0.700  0.01%%→0.700"
    );
}

#[test]
fn scenario_top_two() {
    let lines = strings(&["cat", "dog", "car engine", "finance report"]);
    let scores: Vec<i64> = vec![120, 200, 700, 50];
    let params = BatchParams {
        mode: SelectionMode::TopN(2),
        before: 1,
        after: 0,
        hide_scores: false,
    };
    let out = run_batch(&lines, &scores, &params);
    assert_eq!(
        out.body,
        strings(&["cat", "dog\t[0.200]", "car engine\t[0.700]", "--"])
    );
    assert_eq!(
        out.summary,
        "selected top 2 lines by similarity (min selected score 0.200)"
    );
}

#[test]
fn hide_scores_drops_annotations() {
    let lines = strings(&["cat", "dog", "car engine", "finance report"]);
    let scores: Vec<i64> = vec![120, 200, 700, 50];
    let params = BatchParams {
        mode: SelectionMode::Threshold(500),
        before: 1,
        after: 0,
        hide_scores: true,
    };
    let out = run_batch(&lines, &scores, &params);
    assert_eq!(out.body, strings(&["dog", "car engine", "--"]));
}

#[test]
fn separator_between_blocks_never_after_last() {
    let lines = strings(&["a", "b", "c", "d"]);
    let scores: Vec<i64> = vec![900, 100, 100, 900];
    let params = BatchParams {
        mode: SelectionMode::Threshold(500),
        before: 0,
        after: 0,
        hide_scores: true,
    };
    let out = run_batch(&lines, &scores, &params);
    assert_eq!(out.body, strings(&["a", "--", "d", "--"]));
}

#[test]
fn empty_input_run() {
    let lines: Vec<String> = Vec::new();
    let scores: Vec<i64> = Vec::new();
    let params = BatchParams {
        mode: SelectionMode::Threshold(600),
        before: 2,
        after: 2,
        hide_scores: false,
    };
    let out = run_batch(&lines, &scores, &params);
    assert_eq!(out.body, strings(&["--"]));
    assert_eq!(out.summary, "no matches above threshold 0.60");
    assert_eq!(
        out.distribution,
        "overall distribution (all lines): min 0.000  p50 0.000  p90 0.000  p95 0.000  p99 0.000  p99.9 0.000  max 0.000"
    );
}

#[test]
fn batch_rerun_is_byte_identical() {
    let lines = strings(&["cat", "dog", "car engine", "finance report"]);
    let scores: Vec<i64> = vec![120, 200, 700, 50];
    let params = BatchParams {
        mode: SelectionMode::Threshold(150),
        before: 1,
        after: 1,
        hide_scores: false,
    };
    let first = run_batch(&lines, &scores, &params);
    let second = run_batch(&lines, &scores, &params);
    assert_eq!(first.body, second.body);
    assert_eq!(first.summary, second.summary);
    assert_eq!(first.distribution, second.distribution);
    assert_eq!(first.suggestion, second.suggestion);
}

#[test]
fn negative_scores_render() {
    let lines = strings(&["up", "down"]);
    let scores: Vec<i64> = vec![300, -120];
    let params = BatchParams {
        mode: SelectionMode::Threshold(-200),
        before: 0,
        after: 0,
        hide_scores: false,
    };
    let out = run_batch(&lines, &scores, &params);
    assert_eq!(out.body, strings(&["up\t[0.300]", "down\t[-0.120]", "--"]));
    assert_eq!(out.summary, "matches: 2 (threshold -0.20)");
}

#[test]
fn summary_large_counts() {
    assert_eq!(
        threshold_summary(10500, 600),
        "matches: 10500 (threshold 0.60)"
    );
}

#[test]
fn quantile_rounding_is_nearest_rank() {
    let srt: Vec<i64> = vec![10, 20, 30, 40];
    // (n-1) * p: 3 * 0.5 = 1.5 rounds up to index 2
    assert_eq!(quantile(&srt, 5000), 30);
    // 3 * 0.9 = 2.7 rounds to index 3
    assert_eq!(quantile(&srt, 9000), 40);
    // 3 * 0.1 = 0.3 rounds to index 0
    assert_eq!(quantile(&srt, 1000), 10);
}

#[test]
fn after_context_stops_at_end() {
    let lines = strings(&["a", "b"]);
    let scores: Vec<i64> = vec![100, 900];
    let params = BatchParams {
        mode: SelectionMode::Threshold(500),
        before: 0,
        after: 5,
        hide_scores: true,
    };
    let out = run_batch(&lines, &scores, &params);
    assert_eq!(out.body, strings(&["b", "--"]));
}

#[test]
fn top_summary_empty_population() {
    let lines: Vec<String> = Vec::new();
    let scores: Vec<i64> = Vec::new();
    let params = BatchParams {
        mode: SelectionMode::TopN(3),
        before: 0,
        after: 0,
        hide_scores: false,
    };
    let out = run_batch(&lines, &scores, &params);
    assert_eq!(out.body, strings(&["--"]));
    assert_eq!(
        out.summary,
        "selected top 0 lines by similarity (min selected score 1.000)"
    );
}
