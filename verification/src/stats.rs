//! Order statistics over the score population: ascending sort and
//! nearest-rank quantiles for the end-of-run distribution report.

use vstd::prelude::*;

verus! {

/// Ascending order.
pub open spec fn sorted_asc(s: Seq<i64>) -> bool {
    forall|a: int, b: int| 0 <= a < b < s.len() ==> s[a] <= s[b]
}

/// Sorts the scores ascending: the result is ordered and holds exactly the
/// same values (as a multiset) as the input.
pub fn sort_scores(v: &Vec<i64>) -> (out: Vec<i64>)
    ensures
        sorted_asc(out@),
        out@.to_multiset() == v@.to_multiset(),
        out@.len() == v@.len(),
{
    broadcast use vstd::seq_lib::to_multiset_insert;
    broadcast use vstd::seq_lib::to_multiset_build;

    let mut out: Vec<i64> = Vec::new();
    let mut i: usize = 0;
    proof {
        assert(v@.take(0) =~= Seq::<i64>::empty());
    }
    while i < v.len()
        invariant
            i <= v@.len(),
            out@.len() == i,
            sorted_asc(out@),
            out@.to_multiset() == v@.take(i as int).to_multiset(),
        decreases v@.len() - i,
    {
        let x = v[i];
        let mut idx: usize = 0;
        while idx < out.len() && out[idx] <= x
            invariant
                idx <= out@.len(),
                forall|t: int| 0 <= t < idx ==> out@[t] <= x,
            decreases out@.len() - idx,
        {
            idx += 1;
        }
        let ghost prev = out@;
        out.insert(idx, x);
        proof {
            prev.insert_ensures(idx as int, x);
            assert forall|a: int, b: int| 0 <= a < b < out@.len() implies out@[a] <= out@[b] by {
                if a < idx {
                    assert(out@[a] == prev[a]);
                }
                if a > idx {
                    assert(out@[a] == prev[a - 1]);
                }
                if b < idx {
                    assert(out@[b] == prev[b]);
                }
                if b > idx {
                    assert(out@[b] == prev[b - 1]);
                    assert(idx < prev.len());
                    assert(prev[idx as int] > x);
                    assert(prev[idx as int] <= prev[b - 1]);
                }
            }
            vstd::seq_lib::to_multiset_insert::<i64>(prev, idx as int, x);
            assert(v@.take(i + 1) =~= v@.take(i as int).push(x));
            vstd::seq_lib::to_multiset_build::<i64>(v@.take(i as int), x);
        }
        i += 1;
    }
    proof {
        assert(v@.take(v@.len() as int) =~= v@);
    }
    out
}

/// The nearest-rank index for percentile `p` (in ten-thousandths of one):
/// `round((n - 1) * p)`, rounding half up, always within `[0, n)`.
pub open spec fn quantile_index(n: nat, p: nat) -> int {
    ((n - 1) * p + 5000) / 10000
}

/// The `p`-quantile (in ten-thousandths of one) of an ascending score
/// population: the entry at the nearest-rank index, and `0` for an empty
/// population.
pub open spec fn quantile_spec(sorted: Seq<i64>, p: nat) -> i64 {
    if sorted.len() == 0 {
        0
    } else {
        sorted[quantile_index(sorted.len(), p)]
    }
}

/// The nearest-rank index stays in range for `p <= 10000`.
proof fn lemma_quantile_index_range(n: nat, p: nat)
    requires
        n > 0,
        p <= 10000,
    ensures
        0 <= quantile_index(n, p) <= n - 1,
{
    assert((n - 1) * p <= (n - 1) * 10000) by (nonlinear_arith)
        requires
            n > 0,
            p <= 10000,
    ;
    assert(((n - 1) * 10000 + 5000) / 10000 == n - 1) by (nonlinear_arith)
        requires
            n > 0,
    ;
    assert(((n - 1) * p + 5000) / 10000 <= ((n - 1) * 10000 + 5000) / 10000) by (nonlinear_arith)
        requires
            (n - 1) * p <= (n - 1) * 10000,
    ;
}

/// Nearest-rank quantile of an ascending population. `p` is the percentile
/// in ten-thousandths of one (`5000` is the median, `9990` the 99.9th
/// percentile); an empty population yields `0`.
pub fn quantile(sorted: &Vec<i64>, p: u32) -> (q: i64)
    requires
        p <= 10000,
        sorted@.len() <= 0x1000_0000_0000,
    ensures
        q == quantile_spec(sorted@, p as nat),
{
    let n = sorted.len();
    if n == 0 {
        return 0;
    }
    proof {
        lemma_quantile_index_range(n as nat, p as nat);
        assert((n - 1) as u64 * (p as u64) <= (n - 1) as u64 * 10000) by (nonlinear_arith)
            requires
                p <= 10000,
        ;
    }
    let idx64: u64 = ((n - 1) as u64 * (p as u64) + 5000) / 10000;
    let idx: usize = idx64 as usize;
    sorted[idx]
}

/// The quantile function hits the exact extremes: percentile `0` is the
/// population minimum and percentile `10000` (that is, `1.0`) is the
/// maximum, for any non-empty ascending population.
pub proof fn lemma_quantile_extremes(s: Seq<i64>)
    requires
        s.len() > 0,
        sorted_asc(s),
    ensures
        quantile_spec(s, 0) == s[0],
        quantile_spec(s, 10000) == s.last(),
        forall|j: int| 0 <= j < s.len() ==> s[0] <= #[trigger] s[j] <= s.last(),
{
    assert(quantile_index(s.len(), 0) == 0);
    assert(((s.len() - 1) * 10000 + 5000) / 10000 == s.len() - 1) by (nonlinear_arith)
        requires
            s.len() > 0,
    ;
}

} // verus!
