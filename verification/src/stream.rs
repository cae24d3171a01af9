//! Streaming window engine: one line at a time, bounded memory, no
//! lookahead.
//!
//! The engine keeps a FIFO of the last `before` lines seen (candidate
//! leading context for a future match), a budget of trailing context still
//! owed after the last match, and whether the previous line printed (which
//! drives separator emission). On a match that starts a fresh block it
//! emits a separator (if anything printed earlier), then the whole
//! lookbehind buffer, then the annotated match line.

use crate::render::{
    annotate, block_lines, blocks_output, lemma_blocks_extend_last, lemma_blocks_output_push,
    lemma_texts_push, rendered_line, sep_chars, texts_of,
};
use crate::select::threshold_mask_spec;
use crate::window::{
    covered, in_reach, lemma_runs_from, lemma_runs_push_false, lemma_runs_push_true_extend,
    lemma_runs_push_true_start, reach_seq, runs_from, windows_spec, within_reach, Window,
};
use vstd::prelude::*;

verus! {

/// Streaming run state: fixed configuration plus the per-line mutable
/// state. Top-N selection needs the whole score population, so a stream
/// selects by threshold only.
pub struct StreamState {
    /// Selection threshold (inclusive), in thousandths.
    pub threshold: i64,
    /// Leading context lines kept per block.
    pub before: usize,
    /// Trailing context lines owed after each match.
    pub after: usize,
    /// Suppress score annotations.
    pub hide_scores: bool,
    /// The last `before` lines seen, oldest first.
    pub before_buf: Vec<String>,
    /// Trailing context lines still owed.
    pub after_remaining: usize,
    /// Whether anything printed earlier in the run.
    pub printed_any: bool,
    /// Whether the previous line printed (we are inside a block).
    pub printed_prev_line: bool,
}

impl StreamState {
    /// The lookbehind buffer never outgrows `before`, and the trailing
    /// budget never exceeds `after`.
    pub open spec fn wf(self) -> bool {
        self.before_buf@.len() <= self.before && self.after_remaining <= self.after
    }

    /// Fresh state: idle between blocks, empty buffer, nothing printed.
    pub fn new(threshold: i64, before: usize, after: usize, hide_scores: bool) -> (st: StreamState)
        ensures
            st.wf(),
            st.threshold == threshold,
            st.before == before,
            st.after == after,
            st.hide_scores == hide_scores,
            st.before_buf@.len() == 0,
            st.after_remaining == 0,
            !st.printed_any,
            !st.printed_prev_line,
    {
        StreamState {
            threshold,
            before,
            after,
            hide_scores,
            before_buf: Vec::new(),
            after_remaining: 0,
            printed_any: false,
            printed_prev_line: false,
        }
    }
}

/// What one step prints: on a match, a separator when a block just ended
/// earlier in the run, then the lookbehind buffer when the block is fresh,
/// then the annotated line; on trailing context, the bare line; else
/// nothing.
pub open spec fn step_output(st: StreamState, line: Seq<char>, score: i64) -> Seq<Seq<char>> {
    if score >= st.threshold {
        (if st.printed_any && !st.printed_prev_line {
            seq![sep_chars()]
        } else {
            Seq::empty()
        }) + (if !st.printed_prev_line && st.before > 0 {
            texts_of(st.before_buf@)
        } else {
            Seq::empty()
        }) + seq![rendered_line(line, score as int, true, st.hide_scores)]
    } else if st.after_remaining > 0 {
        seq![line]
    } else {
        Seq::empty()
    }
}

/// The trailing-context budget after one step.
pub open spec fn ar_step(st: StreamState, score: i64) -> nat {
    if score >= st.threshold {
        st.after as nat
    } else if st.after_remaining > 0 {
        (st.after_remaining - 1) as nat
    } else {
        0
    }
}

/// Whether the line of this step printed.
pub open spec fn printed_step(st: StreamState, score: i64) -> bool {
    score >= st.threshold || st.after_remaining > 0
}

/// The lookbehind buffer after one step: every line enters it (evicting the
/// oldest when full) whenever `before > 0`, printed or not.
pub open spec fn buf_step(before: int, buf: Seq<Seq<char>>, line: Seq<char>) -> Seq<Seq<char>> {
    if before > 0 {
        (if buf.len() == before {
            buf.drop_first()
        } else {
            buf
        }).push(line)
    } else {
        buf
    }
}

impl StreamState {
    /// Feeds one scored line to the stream and returns the lines to print
    /// for it, in order.
    pub fn consume(&mut self, line: String, score: i64) -> (out: Vec<String>)
        requires
            old(self).wf(),
            score != i64::MIN,
        ensures
            final(self).wf(),
            final(self).threshold == old(self).threshold,
            final(self).before == old(self).before,
            final(self).after == old(self).after,
            final(self).hide_scores == old(self).hide_scores,
            final(self).after_remaining == ar_step(*old(self), score),
            final(self).printed_prev_line == printed_step(*old(self), score),
            final(self).printed_any == (old(self).printed_any || printed_step(
                *old(self),
                score,
            )),
            texts_of(final(self).before_buf@) == buf_step(
                old(self).before as int,
                texts_of(old(self).before_buf@),
                line@,
            ),
            texts_of(out@) == step_output(*old(self), line@, score),
    {
        let mut out: Vec<String> = Vec::new();
        if score >= self.threshold {
            if self.printed_any && !self.printed_prev_line {
                let ghost prev = out@;
                out.push(String::from_str("--"));
                proof {
                    lemma_texts_push(prev, out@[0]);
                }
            }
            let ghost head = texts_of(out@);
            if !self.printed_prev_line && self.before > 0 {
                let mut bi: usize = 0;
                while bi < self.before_buf.len()
                    invariant
                        bi <= self.before_buf@.len(),
                        texts_of(out@) == head + texts_of(self.before_buf@).take(bi as int),
                    decreases self.before_buf@.len() - bi,
                {
                    let ghost prev = out@;
                    let ctx = self.before_buf[bi].clone();
                    let ghost cv = ctx;
                    out.push(ctx);
                    proof {
                        lemma_texts_push(prev, cv);
                        assert(texts_of(self.before_buf@)[bi as int] == self.before_buf@[
                            bi as int
                        ]@);
                        assert(texts_of(out@) =~= head + texts_of(self.before_buf@).take(bi + 1));
                    }
                    bi += 1;
                }
                proof {
                    assert(texts_of(self.before_buf@).take(self.before_buf@.len() as int)
                        =~= texts_of(self.before_buf@));
                }
            }
            let ghost mid = texts_of(out@);
            let rendered = if !self.hide_scores {
                annotate(&line, score)
            } else {
                line.clone()
            };
            let ghost prev = out@;
            let ghost rv = rendered;
            out.push(rendered);
            proof {
                lemma_texts_push(prev, rv);
                assert(rv@ == rendered_line(line@, score as int, true, self.hide_scores));
                assert(texts_of(out@) =~= step_output(*old(self), line@, score));
            }
            self.printed_any = true;
            self.printed_prev_line = true;
            self.after_remaining = self.after;
        } else if self.after_remaining > 0 {
            let ghost prev = out@;
            let cl = line.clone();
            let ghost cv = cl;
            out.push(cl);
            proof {
                lemma_texts_push(prev, cv);
                assert(texts_of(out@) =~= step_output(*old(self), line@, score));
            }
            self.printed_any = true;
            self.printed_prev_line = true;
            self.after_remaining = self.after_remaining - 1;
        } else {
            self.printed_prev_line = false;
            proof {
                assert(texts_of(out@) =~= step_output(*old(self), line@, score));
            }
        }
        if self.before > 0 {
            let ghost pb = self.before_buf@;
            if self.before_buf.len() == self.before {
                self.before_buf.remove(0);
                proof {
                    assert(self.before_buf@ =~= pb.drop_first());
                    assert forall|t: int| 0 <= t < pb.drop_first().len() implies texts_of(
                        pb.drop_first(),
                    )[t] == texts_of(pb).drop_first()[t] by {
                        assert(texts_of(pb)[t + 1] == pb[t + 1]@);
                    }
                    assert(texts_of(pb.drop_first()) =~= texts_of(pb).drop_first());
                }
            }
            let ghost pb2 = self.before_buf@;
            let ghost lv = line;
            self.before_buf.push(line);
            proof {
                lemma_texts_push(pb2, lv);
            }
        }
        out
    }
}

/// The trailing-context budget the stream holds just before consuming line
/// `k`, as a function of the score prefix: zero at the start; reset to
/// `after` by a match; otherwise decremented while positive. `consume`
/// realises exactly this recurrence through `ar_step`.
pub open spec fn ar_before(scores: Seq<i64>, threshold: i64, after: nat, k: int) -> nat
    decreases k when k >= 0
{
    if k <= 0 {
        0
    } else if scores[k - 1] >= threshold {
        after
    } else if ar_before(scores, threshold, after, k - 1) > 0 {
        (ar_before(scores, threshold, after, k - 1) - 1) as nat
    } else {
        0
    }
}

/// Whether the stream prints line `k`: it is a match, or trailing-context
/// budget is left from an earlier match.
pub open spec fn stream_emits(scores: Seq<i64>, threshold: i64, after: nat, k: int) -> bool {
    scores[k] >= threshold || ar_before(scores, threshold, after, k) > 0
}

/// One `consume` step realises the run-level recurrence: a state holding
/// the budget `ar_before(.., k)` steps to the budget `ar_before(.., k + 1)`
/// on line `k`'s score, and prints that line exactly when the run-level
/// account says it emits.
pub proof fn lemma_step_matches_run(st: StreamState, scores: Seq<i64>, k: int)
    requires
        0 <= k < scores.len(),
        st.after_remaining == ar_before(scores, st.threshold, st.after as nat, k),
    ensures
        ar_step(st, scores[k]) == ar_before(scores, st.threshold, st.after as nat, k + 1),
        printed_step(st, scores[k]) == stream_emits(scores, st.threshold, st.after as nat, k),
{
}

/// The trailing budget never exceeds `after`.
proof fn lemma_ar_bound(scores: Seq<i64>, threshold: i64, after: nat, k: int)
    requires
        0 <= k,
    ensures
        ar_before(scores, threshold, after, k) <= after,
    decreases k,
{
    if k > 0 {
        lemma_ar_bound(scores, threshold, after, k - 1);
    }
}

/// Quantitative account of the trailing budget: at least `t` is left just
/// before line `k` exactly when some match sits within `after - t` lines
/// behind `k`.
proof fn lemma_ar_character(scores: Seq<i64>, threshold: i64, after: nat, k: int, t: nat)
    requires
        0 <= k <= scores.len(),
        1 <= t <= after,
    ensures
        ar_before(scores, threshold, after, k) >= t <==> exists|m: int|
            0 <= m < k && #[trigger] scores[m] >= threshold && k - 1 - m <= after - t,
    decreases k,
{
    if k > 0 {
        lemma_ar_bound(scores, threshold, after, k - 1);
        let arp = ar_before(scores, threshold, after, k - 1);
        if scores[k - 1] >= threshold {
            assert(scores[k - 1] >= threshold && k - 1 - (k - 1) <= after - t);
        } else {
            if t + 1 <= after {
                lemma_ar_character(scores, threshold, after, k - 1, t + 1);
            }
            if ar_before(scores, threshold, after, k) >= t {
                assert(arp >= t + 1);
                let m = choose|m: int|
                    0 <= m < k - 1 && #[trigger] scores[m] >= threshold && k - 2 - m <= after - (t
                        + 1);
                assert(scores[m] >= threshold && k - 1 - m <= after - t);
            } else {
                if exists|m: int|
                    0 <= m < k && #[trigger] scores[m] >= threshold && k - 1 - m <= after - t {
                    let m = choose|m: int|
                        0 <= m < k && #[trigger] scores[m] >= threshold && k - 1 - m <= after - t;
                    assert(m < k - 1);
                    assert(t + 1 <= after);
                    assert(k - 2 - m <= after - (t + 1));
                    assert(arp >= t + 1);
                    assert(false);
                }
            }
        }
    }
}

/// Whether anything printed during the first `k` steps of a run.
pub open spec fn printed_any_before(scores: Seq<i64>, threshold: i64, after: nat, k: int) -> bool
    decreases k when k >= 0
{
    if k <= 0 {
        false
    } else {
        printed_any_before(scores, threshold, after, k - 1) || stream_emits(
            scores,
            threshold,
            after,
            k - 1,
        )
    }
}

/// What the stream prints for line `k` when `before == 0`, as a pure
/// function of the scores seen so far. `consume` produces exactly this
/// (see `lemma_step_output_zero`).
pub open spec fn step_out_zero(
    lines: Seq<Seq<char>>,
    scores: Seq<i64>,
    threshold: i64,
    after: nat,
    hide: bool,
    k: int,
) -> Seq<Seq<char>> {
    if scores[k] >= threshold {
        (if printed_any_before(scores, threshold, after, k) && !(k > 0 && stream_emits(
            scores,
            threshold,
            after,
            k - 1,
        )) {
            seq![sep_chars()]
        } else {
            Seq::<Seq<char>>::empty()
        }) + seq![rendered_line(lines[k], scores[k] as int, true, hide)]
    } else if ar_before(scores, threshold, after, k) > 0 {
        seq![lines[k]]
    } else {
        Seq::<Seq<char>>::empty()
    }
}

/// Everything the stream prints over the first `k` lines, `before == 0`.
pub open spec fn stream_run_zero(
    lines: Seq<Seq<char>>,
    scores: Seq<i64>,
    threshold: i64,
    after: nat,
    hide: bool,
    k: int,
) -> Seq<Seq<char>>
    decreases k when k >= 0
{
    if k <= 0 {
        Seq::<Seq<char>>::empty()
    } else {
        stream_run_zero(lines, scores, threshold, after, hide, k - 1) + step_out_zero(
            lines,
            scores,
            threshold,
            after,
            hide,
            k - 1,
        )
    }
}

/// With `before == 0`, a state that carries the run-level account of step
/// `k` produces exactly the run-level step output.
pub proof fn lemma_step_output_zero(
    st: StreamState,
    lines: Seq<Seq<char>>,
    scores: Seq<i64>,
    k: int,
)
    requires
        0 <= k < scores.len(),
        lines.len() == scores.len(),
        st.before == 0,
        st.after_remaining == ar_before(scores, st.threshold, st.after as nat, k),
        st.printed_any == printed_any_before(scores, st.threshold, st.after as nat, k),
        st.printed_prev_line == (k > 0 && stream_emits(scores, st.threshold, st.after as nat, k - 1)),
    ensures
        step_output(st, lines[k], scores[k]) == step_out_zero(
            lines,
            scores,
            st.threshold,
            st.after as nat,
            st.hide_scores,
            k,
        ),
{
    assert(step_output(st, lines[k], scores[k]) =~= step_out_zero(
        lines,
        scores,
        st.threshold,
        st.after as nat,
        st.hide_scores,
        k,
    ));
}

/// Something printed during the first `k` steps exactly when some earlier
/// line emitted.
proof fn lemma_printed_any(scores: Seq<i64>, threshold: i64, after: nat, k: int)
    requires
        0 <= k,
    ensures
        printed_any_before(scores, threshold, after, k) <==> exists|j: int|
            0 <= j < k && #[trigger] stream_emits(scores, threshold, after, j),
    decreases k,
{
    if k > 0 {
        lemma_printed_any(scores, threshold, after, k - 1);
        if printed_any_before(scores, threshold, after, k) {
            if stream_emits(scores, threshold, after, k - 1) {
                assert(stream_emits(scores, threshold, after, k - 1) && 0 <= k - 1 < k);
            }
        }
    }
}

/// Streaming and batch engines select the same lines when `before == 0`:
/// the stream prints line `k` exactly when `k` is within reach of a match,
/// which is exactly the set the batch windows cover. Matched lines carry
/// the same annotation in both engines (`rendered_line`); with `before > 0`
/// the two may legitimately differ on pre-match context lines, since the
/// batch engine sees future matches and the stream does not.
pub proof fn lemma_stream_batch_agree(scores: Seq<i64>, threshold: i64, after: nat, k: int)
    requires
        0 <= k < scores.len(),
    ensures
        stream_emits(scores, threshold, after, k) <==> in_reach(
            threshold_mask_spec(scores, threshold),
            0,
            after as int,
            k,
        ),
{
    let mask = threshold_mask_spec(scores, threshold);
    lemma_ar_bound(scores, threshold, after, k);
    if after >= 1 {
        lemma_ar_character(scores, threshold, after, k, 1);
    }
    if stream_emits(scores, threshold, after, k) {
        if scores[k] >= threshold {
            assert(within_reach(mask, 0, after as int, k, k));
        } else {
            assert(ar_before(scores, threshold, after, k) >= 1);
            assert(after >= 1);
            let m = choose|m: int|
                0 <= m < k && #[trigger] scores[m] >= threshold && k - 1 - m <= after - 1;
            assert(within_reach(mask, 0, after as int, m, k));
        }
    }
    if in_reach(mask, 0, after as int, k) {
        let m = choose|m: int| within_reach(mask, 0, after as int, m, k);
        assert(scores[m] >= threshold);
        if m == k {
        } else {
            assert(m < k && k - m <= after);
            assert(after >= 1);
            assert(k - 1 - m <= after - 1);
            assert(ar_before(scores, threshold, after, k) >= 1);
        }
    }
}

/// The first `k` steps of a run print exactly the batch rendering of the
/// windows over the first `k` reach flags, when `before == 0`.
proof fn lemma_run_prefix(
    lines: Seq<Seq<char>>,
    scores: Seq<i64>,
    threshold: i64,
    after: nat,
    hide: bool,
    k: int,
)
    requires
        lines.len() == scores.len(),
        scores.len() <= usize::MAX,
        0 <= k <= scores.len(),
    ensures
        stream_run_zero(lines, scores, threshold, after, hide, k) == blocks_output(
            lines,
            scores,
            threshold_mask_spec(scores, threshold),
            hide,
            runs_from(
                reach_seq(threshold_mask_spec(scores, threshold), 0, after as int).take(k),
                0,
            ),
        ),
    decreases k,
{
    let mask = threshold_mask_spec(scores, threshold);
    let r = reach_seq(mask, 0, after as int);
    if k == 0 {
        assert(runs_from(r.take(0), 0) == Seq::<Window>::empty());
        assert(stream_run_zero(lines, scores, threshold, after, hide, 0) =~= blocks_output(
            lines,
            scores,
            mask,
            hide,
            runs_from(r.take(0), 0),
        ));
    } else {
        lemma_run_prefix(lines, scores, threshold, after, hide, k - 1);
        let p = r.take(k - 1);
        assert(r.take(k) =~= p.push(r[k - 1]));
        lemma_stream_batch_agree(scores, threshold, after, k - 1);
        assert(r[k - 1] == in_reach(mask, 0, after as int, k - 1));
        let wsp = runs_from(p, 0);
        lemma_runs_from(p, 0);
        let step = step_out_zero(lines, scores, threshold, after, hide, k - 1);
        if !r[k - 1] {
            // the line neither matches nor owes trailing context: the step
            // prints nothing and the runs are unchanged
            assert(!stream_emits(scores, threshold, after, k - 1));
            assert(step =~= Seq::<Seq<char>>::empty());
            lemma_runs_push_false(p, 0);
            assert(r.take(k) == p.push(false));
            assert(stream_run_zero(lines, scores, threshold, after, hide, k) =~= blocks_output(
                lines,
                scores,
                mask,
                hide,
                runs_from(r.take(k), 0),
            ));
        } else if k - 1 == 0 || !r[k - 2] {
            // a fresh block opens, so the line must itself be a match: an
            // unreached predecessor leaves no trailing budget
            if k - 1 > 0 {
                lemma_stream_batch_agree(scores, threshold, after, k - 2);
            }
            if !(scores[k - 1] >= threshold) {
                assert(ar_before(scores, threshold, after, k - 1) > 0);
                lemma_ar_bound(scores, threshold, after, k - 1);
                lemma_ar_character(scores, threshold, after, k - 1, 1);
                let m = choose|m: int|
                    0 <= m < k - 1 && #[trigger] scores[m] >= threshold && k - 2 - m <= after - 1;
                assert(mask[m]);
                assert(within_reach(mask, 0, after as int, m, k - 2));
                assert(false);
            }
            assert(mask[k - 1]);
            lemma_runs_push_true_start(p, 0);
            let w_new = Window { start: (k - 1) as usize, end: k as usize };
            assert(r.take(k) == p.push(true));
            assert(runs_from(r.take(k), 0) == wsp.push(w_new));
            lemma_blocks_output_push(lines, scores, mask, hide, wsp, w_new);
            lemma_printed_any(scores, threshold, after, k - 1);
            assert forall|j: int| 0 <= j < k - 1 implies #[trigger] stream_emits(
                scores,
                threshold,
                after,
                j,
            ) == r[j] by {
                lemma_stream_batch_agree(scores, threshold, after, j);
            }
            // something printed earlier exactly when an earlier run exists
            if printed_any_before(scores, threshold, after, k - 1) {
                let j = choose|j: int|
                    0 <= j < k - 1 && #[trigger] stream_emits(scores, threshold, after, j);
                assert(p[j]);
                assert(covered(wsp, j));
            }
            if wsp.len() > 0 {
                assert(wsp[0].start <= wsp[0].start < wsp[0].end);
                assert(covered(wsp, wsp[0].start as int));
                assert(p[wsp[0].start as int]);
                assert(stream_emits(scores, threshold, after, wsp[0].start as int));
                assert(printed_any_before(scores, threshold, after, k - 1));
            }
            assert(block_lines(lines, scores, mask, hide, k - 1, k) =~= seq![
                rendered_line(lines[k - 1], scores[k - 1] as int, mask[k - 1], hide),
            ]);
            assert(stream_run_zero(lines, scores, threshold, after, hide, k) =~= blocks_output(
                lines,
                scores,
                mask,
                hide,
                runs_from(r.take(k), 0),
            ));
        } else {
            // the previous line was reached too: the final run extends, and
            // the step prints that one line without a separator
            lemma_stream_batch_agree(scores, threshold, after, k - 2);
            assert(r[k - 2]);
            assert(p.last() == r[k - 2]);
            lemma_runs_push_true_extend(p, 0);
            assert(covered(wsp, k - 2));
            let wi = choose|wi: int|
                0 <= wi < wsp.len() && (#[trigger] wsp[wi]).start <= k - 2 < wsp[wi].end;
            assert(wsp[wi].end <= k - 1);
            if wi < wsp.len() - 1 {
                assert(wsp[wi].end < wsp[wsp.len() - 1].start);
                assert(wsp[wsp.len() - 1].start < wsp[wsp.len() - 1].end <= k - 1);
                assert(false);
            }
            assert(wsp.last().end == (k - 1) as usize);
            let w_ext = Window { start: wsp.last().start, end: k as usize };
            assert(r.take(k) == p.push(true));
            assert(runs_from(r.take(k), 0) == wsp.update(wsp.len() - 1, w_ext));
            lemma_blocks_extend_last(lines, scores, mask, hide, wsp, w_ext);
            assert(mask[k - 1] == (scores[k - 1] >= threshold));
            if scores[k - 1] >= threshold {
                assert(step =~= seq![
                    rendered_line(lines[k - 1], scores[k - 1] as int, mask[k - 1], hide),
                ]);
            } else {
                assert(ar_before(scores, threshold, after, k - 1) > 0);
                assert(step == seq![lines[k - 1]]);
                assert(rendered_line(lines[k - 1], scores[k - 1] as int, mask[k - 1], hide)
                    == lines[k - 1]);
            }
            assert(stream_run_zero(lines, scores, threshold, after, hide, k) =~= blocks_output(
                lines,
                scores,
                mask,
                hide,
                runs_from(r.take(k), 0),
            ));
        }
    }
}

/// With `before == 0`, the whole streaming run prints, line for line and
/// byte for byte, exactly what the batch engine renders for its blocks (the
/// batch run's closing separator excepted): the documented divergence
/// between the two engines is confined to pre-match context, which only
/// `before > 0` produces.
pub proof fn lemma_stream_batch_outputs_equal(
    lines: Seq<Seq<char>>,
    scores: Seq<i64>,
    threshold: i64,
    after: nat,
    hide: bool,
)
    requires
        lines.len() == scores.len(),
        scores.len() <= usize::MAX,
    ensures
        stream_run_zero(lines, scores, threshold, after, hide, scores.len() as int)
            == blocks_output(
            lines,
            scores,
            threshold_mask_spec(scores, threshold),
            hide,
            windows_spec(threshold_mask_spec(scores, threshold), 0, after as int),
        ),
{
    let mask = threshold_mask_spec(scores, threshold);
    let r = reach_seq(mask, 0, after as int);
    lemma_run_prefix(lines, scores, threshold, after, hide, scores.len() as int);
    assert(r.take(scores.len() as int) =~= r);
}

} // verus!
