//! Decimal rendering of unsigned quantities: plain digit strings,
//! magnitude-scaled counts (K/M/G/...), adaptive duration display, and
//! percentages carried as hundredths of a percent.
//!
//! Fractional values are rounded half-up everywhere, and every renderer
//! states the exact character sequence it produces.

use vstd::prelude::*;
use vstd::string::StringExecFns;
use vstd::arithmetic::div_mod::{
    lemma_div_denominator, lemma_div_is_ordered_by_denominator, lemma_fundamental_div_mod,
};
use vstd::arithmetic::mul::lemma_mul_inequality;

verus! {

/// The decimal digit character for `d` (`0 <= d < 10`).
pub open spec fn digit_char(d: int) -> char {
    if d == 0 {
        '0'
    } else if d == 1 {
        '1'
    } else if d == 2 {
        '2'
    } else if d == 3 {
        '3'
    } else if d == 4 {
        '4'
    } else if d == 5 {
        '5'
    } else if d == 6 {
        '6'
    } else if d == 7 {
        '7'
    } else if d == 8 {
        '8'
    } else {
        '9'
    }
}

/// The usual base-10 rendering of `n`, most significant digit first,
/// with no leading zeros (except for `n == 0` itself).
pub open spec fn dec_digits(n: nat) -> Seq<char>
    decreases n,
{
    if n < 10 {
        seq![digit_char(n as int)]
    } else {
        dec_digits(n / 10).push(digit_char((n % 10) as int))
    }
}

/// Exactly `width` digits of `v`, zero-padded on the left; faithful when
/// `v < 10^width`.
pub open spec fn padded_digits(width: nat, v: nat) -> Seq<char>
    decreases width,
{
    if width == 0 {
        Seq::<char>::empty()
    } else {
        padded_digits((width - 1) as nat, v / 10).push(digit_char((v % 10) as int))
    }
}

/// One-character string for the decimal digit `d`.
fn digit_str(d: u64) -> (r: &'static str)
    requires
        d < 10,
    ensures
        r@ =~= seq![digit_char(d as int)],
{
    proof {
        reveal_strlit("0");
        reveal_strlit("1");
        reveal_strlit("2");
        reveal_strlit("3");
        reveal_strlit("4");
        reveal_strlit("5");
        reveal_strlit("6");
        reveal_strlit("7");
        reveal_strlit("8");
        reveal_strlit("9");
    }
    match d {
        0 => "0",
        1 => "1",
        2 => "2",
        3 => "3",
        4 => "4",
        5 => "5",
        6 => "6",
        7 => "7",
        8 => "8",
        _ => "9",
    }
}

/// Relies on std's `String::push`: appends exactly the one given
/// character to the end of the string.
#[verifier::external_body]
pub(crate) fn string_push(s: &mut String, c: char)
    ensures
        final(s)@ == old(s)@.push(c),
{
    s.push(c);
}

/// Renders `n` as its plain decimal digit string.
pub fn u64_to_string(n: u64) -> (r: String)
    ensures
        r@ == dec_digits(n as nat),
    decreases n,
{
    if n < 10 {
        let mut s = String::new();
        s.append(digit_str(n));
        proof {
            assert(s@ =~= dec_digits(n as nat));
        }
        s
    } else {
        let mut s = u64_to_string(n / 10);
        s.append(digit_str(n % 10));
        proof {
            assert(s@ =~= dec_digits(n as nat));
        }
        s
    }
}

/// Renders `v` as exactly `width` left-zero-padded decimal digits.
pub fn pad_u64(width: u32, v: u64) -> (r: String)
    ensures
        r@ == padded_digits(width as nat, v as nat),
    decreases width,
{
    if width == 0 {
        let s = String::new();
        proof {
            assert(s@ =~= padded_digits(0, v as nat));
        }
        s
    } else {
        let mut s = pad_u64(width - 1, v / 10);
        s.append(digit_str(v % 10));
        proof {
            assert(s@ =~= padded_digits(width as nat, v as nat));
        }
        s
    }
}

/// `1000^k`.
pub open spec fn pow1000(k: nat) -> nat
    decreases k,
{
    if k == 0 {
        1
    } else {
        1000 * pow1000((k - 1) as nat)
    }
}

/// How many times `n` must be divided by 1000 before it drops below 1000.
pub open spec fn scale_index(n: nat) -> nat
    decreases n,
{
    if n < 1000 {
        0
    } else {
        1 + scale_index(n / 1000)
    }
}

/// The decimal-prefix letter for scale step `k` (`1 <= k <= 6`).
pub open spec fn prefix_chars(k: int) -> Seq<char> {
    if k == 1 {
        "K"@
    } else if k == 2 {
        "M"@
    } else if k == 3 {
        "G"@
    } else if k == 4 {
        "T"@
    } else if k == 5 {
        "P"@
    } else {
        "E"@
    }
}

/// The mantissa of `n` scaled by `1000^k`, kept to one fractional digit,
/// as tenths, rounded half-up: `round(10 * n / 1000^k)`.
pub open spec fn mantissa_tenths(n: nat, k: nat) -> nat {
    ((20 * n + pow1000(k)) / (2 * pow1000(k))) as nat
}

/// Decimal-prefix rendering of a count: numbers below 1000 are plain
/// digit strings; larger numbers are scaled by 1000 until the mantissa is
/// below 1000 and shown with exactly one fractional digit (half-up) and
/// the prefix letter, e.g. `1500` as `1.5K`. A mantissa that rounds up to
/// 1000.0 keeps its prefix (`999999` is `1000.0K`, not `1.0M`).
pub open spec fn count_chars(n: nat) -> Seq<char> {
    if n < 1000 {
        dec_digits(n)
    } else {
        let k = scale_index(n);
        let m = mantissa_tenths(n, k);
        dec_digits(m / 10) + "."@ + seq![digit_char((m % 10) as int)] + prefix_chars(k as int)
    }
}

proof fn lemma_pow1000_increases(a: nat, b: nat)
    requires
        a <= b,
    ensures
        pow1000(a) <= pow1000(b),
    decreases b,
{
    if a < b {
        lemma_pow1000_increases(a, (b - 1) as nat);
        assert(pow1000(b) == 1000 * pow1000((b - 1) as nat));
        assert(pow1000((b - 1) as nat) <= 1000 * pow1000((b - 1) as nat)) by (nonlinear_arith)
            requires pow1000((b - 1) as nat) >= 0,
        ;
    }
}

proof fn lemma_pow1000_7()
    ensures
        pow1000(7) == 1_000_000_000_000_000_000_000,
{
    assert(pow1000(0) == 1);
    assert(pow1000(1) == 1000 * pow1000(0));
    assert(pow1000(2) == 1000 * pow1000(1));
    assert(pow1000(3) == 1000 * pow1000(2));
    assert(pow1000(4) == 1000 * pow1000(3));
    assert(pow1000(5) == 1000 * pow1000(4));
    assert(pow1000(6) == 1000 * pow1000(5));
    assert(pow1000(7) == 1000 * pow1000(6));
}

/// The one-character string for prefix step `k`.
fn prefix_str(k: u32) -> (r: &'static str)
    requires
        1 <= k <= 6,
    ensures
        r@ == prefix_chars(k as int),
{
    proof {
        reveal_strlit("K");
        reveal_strlit("M");
        reveal_strlit("G");
        reveal_strlit("T");
        reveal_strlit("P");
        reveal_strlit("E");
    }
    match k {
        1 => "K",
        2 => "M",
        3 => "G",
        4 => "T",
        5 => "P",
        _ => "E",
    }
}

/// Renders a count with decimal-prefix scaling, per [`count_chars`].
pub fn format_count(n: u64) -> (r: String)
    ensures
        r@ == count_chars(n as nat),
{
    if n < 1000 {
        return u64_to_string(n);
    }
    let n128: u128 = n as u128;
    let mut m: u128 = n128;
    let mut k: u32 = 0;
    let mut p: u128 = 1;
    while m >= 1000
        invariant
            n >= 1000,
            n128 == n as nat,
            p == pow1000(k as nat),
            1 <= p <= n128,
            m == n as nat / pow1000(k as nat),
            scale_index(n as nat) == k as nat + scale_index(m as nat),
        decreases m,
    {
        proof {
            if k > 6 {
                lemma_pow1000_increases(7, k as nat);
                lemma_pow1000_7();
            }
            // n >= 1000 * p, so the next power still divides into n.
            lemma_fundamental_div_mod(n as int, p as int);
            lemma_mul_inequality(1000, m as int, p as int);
            // (n / p) / 1000 == n / (p * 1000)
            lemma_div_denominator(n as int, p as int, 1000);
            assert(m / 1000 < m) by (nonlinear_arith)
                requires m >= 1000,
            ;
        }
        m = m / 1000;
        k = k + 1;
        p = p * 1000;
    }
    proof {
        assert(scale_index(m as nat) == 0);
        assert(k as nat == scale_index(n as nat));
        assert(k >= 1);
        if k > 6 {
            lemma_pow1000_increases(7, k as nat);
            lemma_pow1000_7();
            assert(false);
        }
    }
    let num: u128 = 20 * n128 + p;
    let m10: u128 = num / (2 * p);
    proof {
        // m10 <= num / 2000 < u64::MAX since p >= 1000.
        lemma_div_is_ordered_by_denominator(num as int, 2000, 2 * p as int);
        assert(num / 2000 < 0xffff_ffff_ffff_ffff) by (nonlinear_arith)
            requires num < 21 * 0x1_0000_0000_0000_0000,
        ;
    }
    let q: u64 = (m10 / 10) as u64;
    let d: u64 = (m10 % 10) as u64;
    let mut s = u64_to_string(q);
    s.append(".");
    s.append(digit_str(d));
    s.append(prefix_str(k));
    proof {
        assert(s@ =~= count_chars(n as nat));
    }
    s
}

/// One scaled duration quantity with exactly three fractional digits:
/// `round_half_up(1000 * nanos / unit)`, in thousandths of the unit.
pub open spec fn duration_thousandths(nanos: nat, unit: nat) -> nat {
    ((2000 * nanos + unit) / (2 * unit)) as nat
}

/// `<whole>.<three digits>` of a duration in the given unit.
pub open spec fn scaled3_chars(nanos: nat, unit: nat) -> Seq<char> {
    let v = duration_thousandths(nanos, unit);
    dec_digits(v / 1000) + "."@ + padded_digits(3, v % 1000)
}

/// Adaptive rendering of an elapsed time given in nanoseconds: hours,
/// minutes, seconds, milliseconds or microseconds, whichever is the
/// largest unit whose lower threshold the duration reaches (thresholds
/// inclusive), with exactly three fractional digits, rounded half-up.
pub open spec fn duration_chars(nanos: nat) -> Seq<char> {
    if nanos >= 3_600_000_000_000 {
        scaled3_chars(nanos, 3_600_000_000_000) + " hours"@
    } else if nanos >= 60_000_000_000 {
        scaled3_chars(nanos, 60_000_000_000) + " minutes"@
    } else if nanos >= 1_000_000_000 {
        scaled3_chars(nanos, 1_000_000_000) + " seconds"@
    } else if nanos >= 1_000_000 {
        scaled3_chars(nanos, 1_000_000) + " ms"@
    } else {
        scaled3_chars(nanos, 1_000) + " µs"@
    }
}

/// Renders `<whole>.<three digits>` of `nanos` in units of `unit` nanoseconds.
fn format_scaled3(nanos: u64, unit: u64) -> (r: String)
    requires
        1000 <= unit,
    ensures
        r@ == scaled3_chars(nanos as nat, unit as nat),
{
    let num: u128 = 2000 * (nanos as u128) + (unit as u128);
    let den: u128 = 2 * (unit as u128);
    let v: u128 = num / den;
    proof {
        assert(num / den <= nanos) by (nonlinear_arith)
            requires
                num == 2000 * (nanos as int) + unit,
                den == 2 * (unit as int),
                unit >= 1000,
        ;
    }
    let whole: u64 = (v / 1000) as u64;
    let frac: u64 = (v % 1000) as u64;
    let mut s = u64_to_string(whole);
    s.append(".");
    let f = pad_u64(3, frac);
    s.append(f.as_str());
    proof {
        assert(s@ =~= scaled3_chars(nanos as nat, unit as nat));
    }
    s
}

/// Renders an elapsed time, given in nanoseconds, per [`duration_chars`].
pub fn format_duration(nanos: u64) -> (r: String)
    ensures
        r@ == duration_chars(nanos as nat),
{
    let (unit, suffix): (u64, &'static str) = if nanos >= 3_600_000_000_000 {
        (3_600_000_000_000, " hours")
    } else if nanos >= 60_000_000_000 {
        (60_000_000_000, " minutes")
    } else if nanos >= 1_000_000_000 {
        (1_000_000_000, " seconds")
    } else if nanos >= 1_000_000 {
        (1_000_000, " ms")
    } else {
        (1_000, " µs")
    };
    let mut s = format_scaled3(nanos, unit);
    s.append(suffix);
    proof {
        assert(s@ =~= duration_chars(nanos as nat));
    }
    s
}

/// The share of `part` in `total` in hundredths of a percent, rounded
/// half-up; zero when `total` is zero.
pub open spec fn pct_hundredths(part: int, total: int) -> int {
    if total <= 0 {
        0
    } else {
        (20000 * part + total) / (2 * total)
    }
}

/// Computes the percentage of `part` within `total`, in hundredths of a
/// percent (`2500` stands for `25.00%`), rounded half-up; `0` when
/// `total` is zero.
pub fn calculate_percentage(part: u64, total: u64) -> (r: u64)
    requires
        part <= total,
    ensures
        r == pct_hundredths(part as int, total as int),
        r <= 10000,
{
    if total == 0 {
        0
    } else {
        let num: u128 = 20000 * (part as u128) + (total as u128);
        let den: u128 = 2 * (total as u128);
        let r128: u128 = num / den;
        proof {
            assert(num / den <= 10000) by (nonlinear_arith)
                requires
                    num == 20000 * (part as int) + total,
                    den == 2 * (total as int),
                    0 < total,
                    part <= total,
            ;
        }
        r128 as u64
    }
}

/// `<whole>.<tenth>%`: the percentage `h` (in hundredths of a percent)
/// reduced to one fractional digit, rounded half-up.
pub open spec fn percent_one_decimal_chars(h: nat) -> Seq<char> {
    let t = (h + 5) / 10;
    dec_digits(t / 10) + "."@ + seq![digit_char((t % 10) as int)] + "%"@
}

/// Renders a percentage held in hundredths with one fractional digit and
/// a trailing percent sign, e.g. `3333` as `33.3%`.
pub fn format_percent_one_decimal(h: u64) -> (r: String)
    ensures
        r@ == percent_one_decimal_chars(h as nat),
{
    let t: u128 = (h as u128 + 5) / 10;
    let whole: u64 = (t / 10) as u64;
    let d: u64 = (t % 10) as u64;
    let mut s = u64_to_string(whole);
    s.append(".");
    s.append(digit_str(d));
    s.append("%");
    proof {
        assert(s@ =~= percent_one_decimal_chars(h as nat));
    }
    s
}

/// `<whole>.<two digits>`: the percentage `h` in hundredths, written out
/// with both fractional digits and no percent sign.
pub open spec fn percent_two_decimal_chars(h: nat) -> Seq<char> {
    dec_digits(h / 100) + "."@ + padded_digits(2, h % 100)
}

/// Renders a percentage held in hundredths with two fractional digits,
/// e.g. `3333` as `33.33`.
pub fn format_percent_two_decimals(h: u64) -> (r: String)
    ensures
        r@ == percent_two_decimal_chars(h as nat),
{
    let mut s = u64_to_string(h / 100);
    s.append(".");
    let f = pad_u64(2, h % 100);
    s.append(f.as_str());
    proof {
        assert(s@ =~= percent_two_decimal_chars(h as nat));
    }
    s
}

} // verus!
