//! Batch window engine: merges per-match context intervals into maximal,
//! disjoint, ordered blocks.
//!
//! A match at index `m` reaches every index `k` with
//! `m - before <= k <= m + after` (clamped to the line range). The engine
//! emits exactly the maximal contiguous runs of reached indices, which is
//! the classic interval merge of `[m - before, m + 1 + after)` over all
//! match indices.

use vstd::prelude::*;

verus! {

/// A half-open range `[start, end)` of line indices rendered as one block.
#[derive(Clone, Copy, Debug, PartialEq, Eq, Structural)]
pub struct Window {
    pub start: usize,
    pub end: usize,
}

/// Match `m` reaches index `k`: `m` is a match and `k` lies within
/// `before` lines before it or `after` lines after it.
pub open spec fn within_reach(mask: Seq<bool>, before: int, after: int, m: int, k: int) -> bool {
    0 <= m < mask.len() && mask[m] && m - before <= k <= m + after
}

/// Index `k` is rendered: some match reaches it.
pub open spec fn in_reach(mask: Seq<bool>, before: int, after: int, k: int) -> bool {
    exists|m: int| within_reach(mask, before, after, m, k)
}

/// The per-index reach flags for a whole mask.
pub open spec fn reach_seq(mask: Seq<bool>, before: int, after: int) -> Seq<bool> {
    Seq::new(mask.len(), |k: int| in_reach(mask, before, after, k))
}

/// Smallest index at or past `k` where `r` is true, or `r.len()` if none.
pub open spec fn next_true(r: Seq<bool>, k: int) -> int
    decreases r.len() - k when 0 <= k <= r.len()
{
    if k < 0 || k >= r.len() {
        r.len() as int
    } else if r[k] {
        k
    } else {
        next_true(r, k + 1)
    }
}

/// Smallest index at or past `k` where `r` is false, or `r.len()` if none.
pub open spec fn run_end(r: Seq<bool>, k: int) -> int
    decreases r.len() - k when 0 <= k <= r.len()
{
    if k < 0 || k >= r.len() {
        r.len() as int
    } else if !r[k] {
        k
    } else {
        run_end(r, k + 1)
    }
}

pub proof fn lemma_next_true(r: Seq<bool>, k: int)
    requires
        0 <= k <= r.len(),
    ensures
        k <= next_true(r, k) <= r.len(),
        next_true(r, k) < r.len() ==> r[next_true(r, k)],
        forall|j: int| k <= j < next_true(r, k) ==> !r[j],
    decreases r.len() - k,
{
    if k < r.len() && !r[k] {
        lemma_next_true(r, k + 1);
    }
}

pub proof fn lemma_run_end(r: Seq<bool>, k: int)
    requires
        0 <= k <= r.len(),
    ensures
        k <= run_end(r, k) <= r.len(),
        run_end(r, k) < r.len() ==> !r[run_end(r, k)],
        forall|j: int| k <= j < run_end(r, k) ==> r[j],
    decreases r.len() - k,
{
    if k < r.len() && r[k] {
        lemma_run_end(r, k + 1);
    }
}

/// `next_true` is pinned by its characteristic properties.
proof fn lemma_next_true_is(r: Seq<bool>, k: int, s: int)
    requires
        0 <= k <= s <= r.len(),
        forall|j: int| k <= j < s ==> !r[j],
        s < r.len() ==> r[s],
    ensures
        next_true(r, k) == s,
    decreases s - k,
{
    if k < s {
        lemma_next_true_is(r, k + 1, s);
    }
}

/// `run_end` is pinned by its characteristic properties.
proof fn lemma_run_end_is(r: Seq<bool>, k: int, e: int)
    requires
        0 <= k <= e <= r.len(),
        forall|j: int| k <= j < e ==> r[j],
        e < r.len() ==> !r[e],
    ensures
        run_end(r, k) == e,
    decreases e - k,
{
    if k < e {
        lemma_run_end_is(r, k + 1, e);
    }
}

/// The maximal runs of true flags at or past `k`, in order.
pub open spec fn runs_from(r: Seq<bool>, k: int) -> Seq<Window>
    decreases r.len() - k when 0 <= k <= r.len() via runs_from_decreases
{
    let s = next_true(r, k);
    if s >= r.len() {
        Seq::empty()
    } else {
        let e = run_end(r, s);
        seq![Window { start: s as usize, end: e as usize }] + runs_from(r, e)
    }
}

#[via_fn]
proof fn runs_from_decreases(r: Seq<bool>, k: int) {
    lemma_next_true(r, k);
    let s = next_true(r, k);
    if s < r.len() {
        lemma_run_end(r, s);
    }
}

/// The merged context windows for a match mask: the maximal runs of the
/// reach flags.
pub open spec fn windows_spec(mask: Seq<bool>, before: int, after: int) -> Seq<Window> {
    runs_from(reach_seq(mask, before, after), 0)
}

/// Index `k` lies inside one of the windows.
pub open spec fn covered(ws: Seq<Window>, k: int) -> bool {
    exists|wi: int| 0 <= wi < ws.len() && (#[trigger] ws[wi]).start <= k < ws[wi].end
}

/// Structure of the runs at or past `k`: windows are well-formed, pairwise
/// disjoint and ordered with at least one unrendered line between them, and
/// they cover exactly the true flags at or past `k`.
pub proof fn lemma_runs_from(r: Seq<bool>, k: int)
    requires
        0 <= k <= r.len() <= usize::MAX,
    ensures
        forall|wi: int|
            0 <= wi < runs_from(r, k).len() ==> k <= #[trigger] runs_from(r, k)[wi].start
                < runs_from(r, k)[wi].end <= r.len(),
        forall|a: int, b: int|
            0 <= a < b < runs_from(r, k).len() ==> #[trigger] runs_from(r, k)[a].end
                < #[trigger] runs_from(r, k)[b].start,
        forall|j: int| k <= j < r.len() ==> (covered(runs_from(r, k), j) <==> r[j]),
    decreases r.len() - k,
{
    let ws = runs_from(r, k);
    lemma_next_true(r, k);
    let s = next_true(r, k);
    if s >= r.len() {
        assert(forall|j: int| k <= j < r.len() ==> !r[j]);
    } else {
        lemma_run_end(r, s);
        let e = run_end(r, s);
        lemma_runs_from(r, e);
        let rest = runs_from(r, e);
        let w0 = Window { start: s as usize, end: e as usize };
        assert(ws == seq![w0] + rest);
        assert(ws[0] == w0);
        assert(forall|wi: int| 0 <= wi < rest.len() ==> ws[wi + 1] == rest[wi]);
        // every later window starts strictly past e: its start flag is true,
        // while r[e] is false (when e < r.len()).
        assert forall|wi: int| 0 <= wi < rest.len() implies e < #[trigger] rest[wi].start by {
            assert(covered(rest, rest[wi].start as int));
            assert(r[rest[wi].start as int]);
        }
        assert forall|a: int, b: int| 0 <= a < b < ws.len() implies #[trigger] ws[a].end
            < #[trigger] ws[b].start by {
            if a == 0 {
                assert(ws[b] == rest[b - 1]);
            } else {
                assert(ws[a] == rest[a - 1] && ws[b] == rest[b - 1]);
            }
        }
        assert forall|j: int| k <= j < r.len() implies (covered(ws, j) <==> r[j]) by {
            if s <= j < e {
                assert(ws[0].start <= j < ws[0].end);
                assert(covered(ws, j));
            } else if j < s {
                assert(!r[j]);
                assert forall|wi: int| 0 <= wi < ws.len() implies !((#[trigger] ws[wi]).start <= j
                    < ws[wi].end) by {
                    if wi == 0 {
                        assert(ws[0] == w0);
                    } else {
                        assert(ws[wi] == rest[wi - 1]);
                        assert(e < rest[wi - 1].start);
                    }
                }
            } else {
                // j >= e: defer to the tail runs
                if covered(ws, j) {
                    let wi = choose|wi: int|
                        0 <= wi < ws.len() && (#[trigger] ws[wi]).start <= j < ws[wi].end;
                    if wi == 0 {
                        assert(j < e);
                    } else {
                        assert(ws[wi] == rest[wi - 1]);
                        assert(covered(rest, j));
                    }
                }
                if r[j] {
                    assert(covered(rest, j));
                    let wi = choose|wi: int|
                        0 <= wi < rest.len() && (#[trigger] rest[wi]).start <= j < rest[wi].end;
                    assert(ws[wi + 1] == rest[wi]);
                    assert(covered(ws, j));
                }
            }
        }
    }
}

/// The batch window engine's defining properties: windows are well-formed,
/// pairwise disjoint, ordered by start index, separated by at least one
/// unrendered line, and their union over indices is exactly the set of
/// indices within `before`/`after` reach of some match.
pub proof fn lemma_windows_properties(mask: Seq<bool>, before: int, after: int)
    requires
        before >= 0,
        after >= 0,
        mask.len() <= usize::MAX,
    ensures
        forall|wi: int|
            0 <= wi < windows_spec(mask, before, after).len() ==> 0 <= #[trigger] windows_spec(
                mask,
                before,
                after,
            )[wi].start < windows_spec(mask, before, after)[wi].end <= mask.len(),
        forall|a: int, b: int|
            0 <= a < b < windows_spec(mask, before, after).len() ==> #[trigger] windows_spec(
                mask,
                before,
                after,
            )[a].end < #[trigger] windows_spec(mask, before, after)[b].start,
        forall|k: int|
            0 <= k < mask.len() ==> (covered(windows_spec(mask, before, after), k) <==> in_reach(
                mask,
                before,
                after,
                k,
            )),
{
    let r = reach_seq(mask, before, after);
    lemma_runs_from(r, 0);
    assert forall|k: int| 0 <= k < mask.len() implies (covered(
        windows_spec(mask, before, after),
        k,
    ) <==> in_reach(mask, before, after, k)) by {
        assert(r[k] == in_reach(mask, before, after, k));
    }
}

/// Appending an unreached index changes no run.
pub proof fn lemma_runs_push_false(r: Seq<bool>, k: int)
    requires
        0 <= k <= r.len(),
    ensures
        runs_from(r.push(false), k) == runs_from(r, k),
    decreases r.len() - k,
{
    let r2 = r.push(false);
    lemma_next_true(r, k);
    let s = next_true(r, k);
    if s >= r.len() {
        lemma_next_true_is(r2, k, r2.len() as int);
    } else {
        lemma_next_true_is(r2, k, s);
        lemma_run_end(r, s);
        let e = run_end(r, s);
        lemma_run_end_is(r2, s, e);
        lemma_runs_push_false(r, e);
    }
}

/// Appending a reached index after an unreached one (or to an empty
/// sequence) starts a fresh singleton run at the end.
pub proof fn lemma_runs_push_true_start(r: Seq<bool>, k: int)
    requires
        0 <= k <= r.len(),
        r.len() == 0 || !r.last(),
    ensures
        runs_from(r.push(true), k) == runs_from(r, k).push(
            Window { start: r.len() as usize, end: (r.len() + 1) as usize },
        ),
    decreases r.len() - k,
{
    let r2 = r.push(true);
    let w_new = Window { start: r.len() as usize, end: (r.len() + 1) as usize };
    lemma_next_true(r, k);
    let s = next_true(r, k);
    if s >= r.len() {
        // no run at or past k in r: the appended flag is the only run
        lemma_next_true_is(r2, k, r.len() as int);
        lemma_run_end_is(r2, r.len() as int, r2.len() as int);
        assert(next_true(r2, r2.len() as int) == r2.len());
        assert(runs_from(r2, r2.len() as int) == Seq::<Window>::empty());
        assert(runs_from(r2, k) =~= Seq::<Window>::empty().push(w_new));
        assert(runs_from(r, k).push(w_new) =~= Seq::<Window>::empty().push(w_new));
    } else {
        lemma_next_true_is(r2, k, s);
        lemma_run_end(r, s);
        let e = run_end(r, s);
        assert(e < r.len());  // the last flag of r is false
        lemma_run_end_is(r2, s, e);
        lemma_runs_push_true_start(r, e);
        assert(runs_from(r2, k) =~= runs_from(r, k).push(w_new));
    }
}

/// Appending a reached index right after a reached one extends the final
/// run by one.
pub proof fn lemma_runs_push_true_extend(r: Seq<bool>, k: int)
    requires
        0 <= k < r.len(),
        r.last(),
    ensures
        runs_from(r, k).len() > 0,
        runs_from(r.push(true), k) == runs_from(r, k).update(
            runs_from(r, k).len() - 1,
            Window {
                start: runs_from(r, k).last().start,
                end: (r.len() + 1) as usize,
            },
        ),
    decreases r.len() - k,
{
    let r2 = r.push(true);
    lemma_next_true(r, k);
    let s = next_true(r, k);
    assert(s < r.len());  // r.last() is a true flag at or past k
    lemma_next_true_is(r2, k, s);
    lemma_run_end(r, s);
    let e = run_end(r, s);
    if e == r.len() {
        // the final run: it now runs one further
        lemma_run_end_is(r2, s, r2.len() as int);
        assert(runs_from(r, e) == Seq::<Window>::empty());
        assert(next_true(r2, r2.len() as int) == r2.len());
        assert(runs_from(r2, r2.len() as int) == Seq::<Window>::empty());
        assert(runs_from(r, k) =~= seq![Window { start: s as usize, end: e as usize }]);
        assert(runs_from(r2, k) =~= seq![
            Window { start: s as usize, end: (r.len() + 1) as usize },
        ]);
        assert(runs_from(r2, k) =~= runs_from(r, k).update(
            runs_from(r, k).len() - 1,
            Window { start: runs_from(r, k).last().start, end: (r.len() + 1) as usize },
        ));
    } else {
        assert(!r[e]);
        lemma_run_end_is(r2, s, e);
        lemma_runs_push_true_extend(r, e);
        let rest = runs_from(r, e);
        let w0 = Window { start: s as usize, end: e as usize };
        assert(runs_from(r, k) == seq![w0] + rest);
        assert(runs_from(r2, k) == seq![w0] + runs_from(r2, e));
        assert(runs_from(r, k).last() == rest.last());
        assert(runs_from(r2, k) =~= runs_from(r, k).update(
            runs_from(r, k).len() - 1,
            Window { start: runs_from(r, k).last().start, end: (r.len() + 1) as usize },
        ));
    }
}

/// With no context at all, the rendered indices are exactly the matches,
/// so windows degenerate to maximal runs of consecutive matched lines.
pub proof fn lemma_zero_context_reaches_matches_only(mask: Seq<bool>, k: int)
    requires
        0 <= k < mask.len(),
    ensures
        in_reach(mask, 0, 0, k) <==> mask[k],
{
    if mask[k] {
        assert(within_reach(mask, 0, 0, k, k));
    }
}

/// Computes the per-index reach flags.
fn reach_vec(mask: &Vec<bool>, before: usize, after: usize) -> (r: Vec<bool>)
    ensures
        r@ == reach_seq(mask@, before as int, after as int),
{
    let len = mask.len();
    let mut r: Vec<bool> = Vec::new();
    let mut k: usize = 0;
    while k < len
        invariant
            k <= len,
            len == mask@.len(),
            r@.len() == k,
            forall|j: int|
                0 <= j < k ==> r@[j] == in_reach(mask@, before as int, after as int, j),
        decreases len - k,
    {
        // matches reaching k are exactly those in [k - after, k + before],
        // clamped to the index range
        let lo: usize = if after >= k {
            0
        } else {
            k - after
        };
        let hi: usize = k + if before < len - 1 - k {
            before
        } else {
            len - 1 - k
        };
        let mut found = false;
        let mut m: usize = lo;
        while m <= hi
            invariant
                lo <= m <= hi + 1,
                hi < len,
                len == mask@.len(),
                k < len,
                lo == if after >= k {
                    0int
                } else {
                    k - after
                },
                hi == k + if before < len - 1 - k {
                    before as int
                } else {
                    len - 1 - k
                },
                found == exists|m0: int|
                    lo <= m0 < m && within_reach(mask@, before as int, after as int, m0, k as int),
            decreases hi + 1 - m,
        {
            if mask[m] {
                proof {
                    assert(within_reach(mask@, before as int, after as int, m as int, k as int));
                }
                found = true;
            }
            m += 1;
        }
        proof {
            if in_reach(mask@, before as int, after as int, k as int) {
                let m0 = choose|m0: int|
                    within_reach(mask@, before as int, after as int, m0, k as int);
                assert(lo <= m0 <= hi);
            }
        }
        r.push(found);
        k += 1;
    }
    proof {
        assert(r@ =~= reach_seq(mask@, before as int, after as int));
    }
    r
}

/// Computes the merged context windows for a match mask.
pub fn compute_windows(mask: &Vec<bool>, before: usize, after: usize) -> (ws: Vec<Window>)
    ensures
        ws@ == windows_spec(mask@, before as int, after as int),
{
    let r = reach_vec(mask, before, after);
    let len = r.len();
    let mut ws: Vec<Window> = Vec::new();
    let mut i: usize = 0;
    proof {
        assert(runs_from(r@, 0) =~= Seq::<Window>::empty() + runs_from(r@, 0));
    }
    while i < len
        invariant
            i <= len,
            len == r@.len(),
            r@ == reach_seq(mask@, before as int, after as int),
            runs_from(r@, 0) == ws@ + runs_from(r@, i as int),
        decreases len - i,
    {
        if r[i] {
            let mut j: usize = i + 1;
            while j < len && r[j]
                invariant
                    i < j <= len,
                    len == r@.len(),
                    forall|t: int| i <= t < j ==> r@[t],
                decreases len - j,
            {
                j += 1;
            }
            proof {
                lemma_next_true_is(r@, i as int, i as int);
                lemma_run_end_is(r@, i as int, j as int);
                assert(runs_from(r@, i as int) == seq![
                    Window { start: i, end: j },
                ] + runs_from(r@, j as int));
                assert((ws@ + runs_from(r@, i as int)) =~= (ws@.push(Window { start: i, end: j })
                    + runs_from(r@, j as int)));
            }
            ws.push(Window { start: i, end: j });
            i = j;
        } else {
            proof {
                assert(next_true(r@, i as int) == next_true(r@, i + 1));
                assert(runs_from(r@, i as int) == runs_from(r@, i + 1));
            }
            i += 1;
        }
    }
    proof {
        assert(runs_from(r@, len as int) == Seq::<Window>::empty());
        assert(ws@ =~= ws@ + runs_from(r@, len as int));
    }
    ws
}

} // verus!
