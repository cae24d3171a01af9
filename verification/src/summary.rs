//! End-of-run texts: the selection summary and the score-distribution
//! diagnostics that help tune future thresholds.

use crate::digits::{centi_chars, dec_digits, score_chars, format_score, format_threshold, u64_dec};
use vstd::prelude::*;

verus! {

/// The threshold-mode selection summary: either no match cleared the
/// threshold, or how many did.
pub open spec fn threshold_summary_chars(count: nat, threshold: int) -> Seq<char> {
    if count == 0 {
        "no matches above threshold "@ + centi_chars(threshold)
    } else {
        "matches: "@ + dec_digits(count) + " (threshold "@ + centi_chars(threshold) + ")"@
    }
}

/// The top-N selection summary with the minimum selected score.
pub open spec fn top_summary_chars(n: nat, min_sel: int) -> Seq<char> {
    "selected top "@ + dec_digits(n) + " lines by similarity (min selected score "@ + score_chars(
        min_sel,
    ) + ")"@
}

/// The overall score-distribution report.
pub open spec fn distribution_chars(
    mn: int,
    p50: int,
    p90: int,
    p95: int,
    p99: int,
    p999: int,
    mx: int,
) -> Seq<char> {
    "overall distribution (all lines): min "@ + score_chars(mn) + "  p50 "@ + score_chars(p50)
        + "  p90 "@ + score_chars(p90) + "  p95 "@ + score_chars(p95) + "  p99 "@ + score_chars(
        p99,
    ) + "  p99.9 "@ + score_chars(p999) + "  max "@ + score_chars(mx)
}

/// The suggested-thresholds report: which threshold would keep the top 5%,
/// 1%, 0.1% and 0.01% of lines.
pub open spec fn suggestion_chars(p95: int, p99: int, p999: int, p9999: int) -> Seq<char> {
    "suggested thresholds for top k%% lines: 5%%→"@ + score_chars(p95) + "  1%%→"@ + score_chars(
        p99,
    ) + "  0.1%%→"@ + score_chars(p999) + "  0.01%%→"@ + score_chars(p9999)
}

/// Builds the threshold-mode summary line.
pub fn threshold_summary(count: usize, threshold: i64) -> (s: String)
    requires
        threshold != i64::MIN,
    ensures
        s@ == threshold_summary_chars(count as nat, threshold as int),
{
    if count == 0 {
        let mut s = String::from_str("no matches above threshold ");
        let t = format_threshold(threshold);
        s.append(t.as_str());
        s
    } else {
        let mut s = String::from_str("matches: ");
        let c = u64_dec(count as u64);
        s.append(c.as_str());
        s.append(" (threshold ");
        let t = format_threshold(threshold);
        s.append(t.as_str());
        s.append(")");
        s
    }
}

/// Builds the top-N summary line.
pub fn top_summary(n: usize, min_sel: i64) -> (s: String)
    requires
        min_sel != i64::MIN,
    ensures
        s@ == top_summary_chars(n as nat, min_sel as int),
{
    let mut s = String::from_str("selected top ");
    let c = u64_dec(n as u64);
    s.append(c.as_str());
    s.append(" lines by similarity (min selected score ");
    let m = format_score(min_sel);
    s.append(m.as_str());
    s.append(")");
    s
}

/// Builds the distribution report line.
pub fn distribution_report(
    mn: i64,
    p50: i64,
    p90: i64,
    p95: i64,
    p99: i64,
    p999: i64,
    mx: i64,
) -> (s: String)
    requires
        mn != i64::MIN,
        p50 != i64::MIN,
        p90 != i64::MIN,
        p95 != i64::MIN,
        p99 != i64::MIN,
        p999 != i64::MIN,
        mx != i64::MIN,
    ensures
        s@ == distribution_chars(
            mn as int,
            p50 as int,
            p90 as int,
            p95 as int,
            p99 as int,
            p999 as int,
            mx as int,
        ),
{
    let mut s = String::from_str("overall distribution (all lines): min ");
    let t0 = format_score(mn);
    s.append(t0.as_str());
    s.append("  p50 ");
    let t1 = format_score(p50);
    s.append(t1.as_str());
    s.append("  p90 ");
    let t2 = format_score(p90);
    s.append(t2.as_str());
    s.append("  p95 ");
    let t3 = format_score(p95);
    s.append(t3.as_str());
    s.append("  p99 ");
    let t4 = format_score(p99);
    s.append(t4.as_str());
    s.append("  p99.9 ");
    let t5 = format_score(p999);
    s.append(t5.as_str());
    s.append("  max ");
    let t6 = format_score(mx);
    s.append(t6.as_str());
    s
}

/// Builds the suggested-thresholds line.
pub fn suggestion_report(p95: i64, p99: i64, p999: i64, p9999: i64) -> (s: String)
    requires
        p95 != i64::MIN,
        p99 != i64::MIN,
        p999 != i64::MIN,
        p9999 != i64::MIN,
    ensures
        s@ == suggestion_chars(p95 as int, p99 as int, p999 as int, p9999 as int),
{
    let mut s = String::from_str("suggested thresholds for top k%% lines: 5%%→");
    let t0 = format_score(p95);
    s.append(t0.as_str());
    s.append("  1%%→");
    let t1 = format_score(p99);
    s.append(t1.as_str());
    s.append("  0.1%%→");
    let t2 = format_score(p999);
    s.append(t2.as_str());
    s.append("  0.01%%→");
    let t3 = format_score(p9999);
    s.append(t3.as_str());
    s
}

} // verus!
