//! Decimal rendering of counts and fixed-point scores.
//!
//! Scores live in thousandths, so a score prints with exactly three decimal
//! places (`712` prints as `0.712`, `-45` as `-0.045`). Thresholds print
//! with two decimal places, rounding half away from zero.

use vstd::prelude::*;

verus! {

/// The character for a single decimal digit.
pub open spec fn digit_char(d: nat) -> char {
    if d == 0 {
        '0'
    } else if d == 1 {
        '1'
    } else if d == 2 {
        '2'
    } else if d == 3 {
        '3'
    } else if d == 4 {
        '4'
    } else if d == 5 {
        '5'
    } else if d == 6 {
        '6'
    } else if d == 7 {
        '7'
    } else if d == 8 {
        '8'
    } else {
        '9'
    }
}

/// Decimal digits of `n`, most significant first, no leading zeros except
/// for `n == 0` itself.
pub open spec fn dec_digits(n: nat) -> Seq<char>
    decreases n,
{
    if n < 10 {
        seq![digit_char(n)]
    } else {
        dec_digits(n / 10).push(digit_char(n % 10))
    }
}

/// A one-character string for the digit `d` (`d <= 9`).
fn digit_str(d: u64) -> (s: &'static str)
    requires
        d <= 9,
    ensures
        s@ == seq![digit_char(d as nat)],
{
    proof {
        reveal_strlit("0");
        reveal_strlit("1");
        reveal_strlit("2");
        reveal_strlit("3");
        reveal_strlit("4");
        reveal_strlit("5");
        reveal_strlit("6");
        reveal_strlit("7");
        reveal_strlit("8");
        reveal_strlit("9");
    }
    if d == 0 {
        "0"
    } else if d == 1 {
        "1"
    } else if d == 2 {
        "2"
    } else if d == 3 {
        "3"
    } else if d == 4 {
        "4"
    } else if d == 5 {
        "5"
    } else if d == 6 {
        "6"
    } else if d == 7 {
        "7"
    } else if d == 8 {
        "8"
    } else {
        "9"
    }
}

/// Renders `n` in decimal.
pub fn u64_dec(n: u64) -> (s: String)
    ensures
        s@ == dec_digits(n as nat),
    decreases n,
{
    if n < 10 {
        String::from_str(digit_str(n))
    } else {
        let mut s = u64_dec(n / 10);
        s.append(digit_str(n % 10));
        s
    }
}

/// Exactly three zero-padded digits for a fraction of a unit in
/// thousandths (`0 <= f < 1000`).
pub open spec fn frac3_chars(f: nat) -> Seq<char> {
    seq![digit_char(f / 100), digit_char((f / 10) % 10), digit_char(f % 10)]
}

/// Exactly two zero-padded digits for a fraction of a unit in hundredths
/// (`0 <= f < 100`).
pub open spec fn frac2_chars(f: nat) -> Seq<char> {
    seq![digit_char(f / 10), digit_char(f % 10)]
}

/// A score in thousandths rendered with three decimal places, as the
/// per-line annotations and distribution report show it.
pub open spec fn score_chars(m: int) -> Seq<char> {
    if m < 0 {
        seq!['-'] + mag3_chars((-m) as nat)
    } else {
        mag3_chars(m as nat)
    }
}

/// Magnitude part of a three-decimal rendering.
pub open spec fn mag3_chars(m: nat) -> Seq<char> {
    dec_digits(m / 1000) + seq!['.'] + frac3_chars(m % 1000)
}

/// A threshold in thousandths rendered with two decimal places, rounding
/// half away from zero.
pub open spec fn centi_chars(m: int) -> Seq<char> {
    if m < 0 {
        seq!['-'] + mag2_chars((((-m) + 5) / 10) as nat)
    } else {
        mag2_chars(((m + 5) / 10) as nat)
    }
}

/// Magnitude part of a two-decimal rendering, taking hundredths.
pub open spec fn mag2_chars(c: nat) -> Seq<char> {
    dec_digits(c / 100) + seq!['.'] + frac2_chars(c % 100)
}

/// Renders a thousandths score with three decimal places.
pub fn format_score(m: i64) -> (s: String)
    requires
        m != i64::MIN,
    ensures
        s@ == score_chars(m as int),
{
    proof {
        reveal_strlit("-");
        reveal_strlit(".");
    }
    let a: u64 = if m < 0 {
        (-m) as u64
    } else {
        m as u64
    };
    let mut s = if m < 0 {
        String::from_str("-")
    } else {
        String::new()
    };
    let whole = u64_dec(a / 1000);
    s.append(whole.as_str());
    s.append(".");
    let f = a % 1000;
    s.append(digit_str(f / 100));
    s.append(digit_str((f / 10) % 10));
    s.append(digit_str(f % 10));
    proof {
        if m < 0 {
            assert(s@ =~= seq!['-'] + mag3_chars(a as nat));
        } else {
            assert(s@ =~= mag3_chars(a as nat));
        }
    }
    s
}

/// Renders a thousandths threshold with two decimal places, rounding half
/// away from zero.
pub fn format_threshold(m: i64) -> (s: String)
    requires
        m != i64::MIN,
    ensures
        s@ == centi_chars(m as int),
{
    proof {
        reveal_strlit("-");
        reveal_strlit(".");
    }
    let a: u64 = if m < 0 {
        (-m) as u64
    } else {
        m as u64
    };
    let c = (a + 5) / 10;
    let mut s = if m < 0 {
        String::from_str("-")
    } else {
        String::new()
    };
    let whole = u64_dec(c / 100);
    s.append(whole.as_str());
    s.append(".");
    let f = c % 100;
    s.append(digit_str(f / 10));
    s.append(digit_str(f % 10));
    proof {
        if m < 0 {
            assert(s@ =~= seq!['-'] + mag2_chars(c as nat));
        } else {
            assert(s@ =~= mag2_chars(c as nat));
        }
    }
    s
}

} // verus!
