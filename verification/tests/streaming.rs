use vecgrep::engine::{run_batch, BatchParams, SelectionMode};
use vecgrep::stream::StreamState;

fn strings(v: &[&str]) -> Vec<String> {
    v.iter().map(|s| s.to_string()).collect()
}

fn run_stream_over(
    st: &mut StreamState,
    lines: &[&str],
    scores: &[i64],
) -> Vec<String> {
    let mut out = Vec::new();
    for (line, score) in lines.iter().zip(scores.iter()) {
        let mut step = st.consume(line.to_string(), *score);
        out.append(&mut step);
    }
    out
}

#[test]
fn stream_matches_only() {
    let mut st = StreamState::new(500, 0, 0, false);
    let out = run_stream_over(
        &mut st,
        &["cat", "dog", "car engine", "finance report"],
        &[120, 200, 700, 50],
    );
    assert_eq!(out, strings(&["car engine\t[0.700]"]));
}

#[test]
fn stream_trailing_context_budget() {
    let mut st = StreamState::new(500, 0, 2, true);
    let out = run_stream_over(
        &mut st,
        &["a", "b", "c", "d", "e"],
        &[900, 100, 100, 100, 100],
    );
    assert_eq!(out, strings(&["a", "b", "c"]));
}

#[test]
fn stream_separator_between_blocks() {
    let mut st = StreamState::new(500, 0, 0, true);
    let out = run_stream_over(&mut st, &["a", "b", "c"], &[900, 100, 900]);
    assert_eq!(out, strings(&["a", "--", "c"]));
}

#[test]
fn stream_flushes_lookbehind_on_fresh_block() {
    let mut st = StreamState::new(500, 2, 0, true);
    let out = run_stream_over(
        &mut st,
        &["a", "b", "c", "d"],
        &[100, 100, 100, 900],
    );
    assert_eq!(out, strings(&["b", "c", "d"]));
}

#[test]
fn stream_lookbehind_evicts_oldest() {
    let mut st = StreamState::new(500, 1, 0, true);
    let out = run_stream_over(
        &mut st,
        &["a", "b", "c", "d"],
        &[100, 100, 100, 900],
    );
    assert_eq!(out, strings(&["c", "d"]));
}

#[test]
fn stream_equals_batch_without_before_context() {
    let lines = ["cat", "dog", "car engine", "finance report", "van"];
    let scores: [i64; 5] = [120, 200, 700, 50, 640];
    let mut st = StreamState::new(500, 0, 1, false);
    let streamed = run_stream_over(&mut st, &lines, &scores);
    let params = BatchParams {
        mode: SelectionMode::Threshold(500),
        before: 0,
        after: 1,
        hide_scores: false,
    };
    let out = run_batch(&strings(&lines), &scores.to_vec(), &params);
    let mut batch_blocks = out.body.clone();
    batch_blocks.pop();
    assert_eq!(streamed, batch_blocks);
}

#[test]
fn stream_diverges_from_batch_on_close_matches() {
    let lines = ["a", "b", "c", "d"];
    let scores: [i64; 4] = [100, 900, 100, 900];
    let mut st = StreamState::new(500, 2, 0, true);
    let streamed = run_stream_over(&mut st, &lines, &scores);
    assert_eq!(streamed, strings(&["a", "b", "--", "b", "c", "d"]));
    let params = BatchParams {
        mode: SelectionMode::Threshold(500),
        before: 2,
        after: 0,
        hide_scores: true,
    };
    let out = run_batch(&strings(&lines), &scores.to_vec(), &params);
    assert_eq!(out.body, strings(&["a", "b", "c", "d", "--"]));
    let mut batch_blocks = out.body.clone();
    batch_blocks.pop();
    assert_ne!(streamed, batch_blocks);
}

#[test]
fn stream_rerun_from_fresh_state_is_identical() {
    let lines = ["x", "y", "z"];
    let scores: [i64; 3] = [700, 100, 800];
    let mut first_state = StreamState::new(500, 1, 1, false);
    let first = run_stream_over(&mut first_state, &lines, &scores);
    let mut second_state = StreamState::new(500, 1, 1, false);
    let second = run_stream_over(&mut second_state, &lines, &scores);
    assert_eq!(first, second);
}

#[test]
fn stream_equals_batch_across_blocks() {
    let lines = ["a", "b", "c", "d", "e", "f"];
    let scores: [i64; 6] = [900, 100, 100, 100, 900, 100];
    let mut st = StreamState::new(500, 0, 1, false);
    let streamed = run_stream_over(&mut st, &lines, &scores);
    let params = BatchParams {
        mode: SelectionMode::Threshold(500),
        before: 0,
        after: 1,
        hide_scores: false,
    };
    let out = run_batch(&strings(&lines), &scores.to_vec(), &params);
    let mut batch_blocks = out.body.clone();
    batch_blocks.pop();
    assert_eq!(
        streamed,
        strings(&["a\t[0.900]", "b", "--", "e\t[0.900]", "f"])
    );
    assert_eq!(streamed, batch_blocks);
}
