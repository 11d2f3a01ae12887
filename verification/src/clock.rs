//! Lengths of audio as text.

use crate::audio::SAMPLE_RATE;
use crate::rounding::{
    divide_to_nearest, few_digits_stay, nearest_multiple_is_near, nearest_quotient,
    nearest_quotient_is_nearest, round_digits, rounded, rounded_keeps_order, spacing,
    spacing_is_small,
};
use crate::text::{decimal, padded, push_decimal, push_padded};
use vstd::arithmetic::power2::{lemma2_to64, lemma_pow2_pos, lemma_pow2_unfold, pow2};
use vstd::prelude::*;

verus! {

/// One past the largest significand of a binary64 value: it has 53 binary digits.
pub const DIGITS: u128 = 0x20_0000_0000_0000;

/// From here on, a number of frames is that many seconds with 53 binary digits in
/// front of the point: `SAMPLE_RATE` times `2^52`.
pub const SCALED: u128 = 216_172_782_113_783_808_000;

/// Doublings that bring `n` to at least [`SCALED`].
pub open spec fn doublings(n: nat) -> nat
    decreases
            if n < SCALED {
                SCALED - n
            } else {
                0
            },
{
    if n == 0 || n >= SCALED {
        0
    } else {
        1 + doublings(2 * n)
    }
}

/// A length in seconds as a binary64 value: the numerator, over `2^doublings` of the
/// number of frames, which is itself such a value.
pub open spec fn seconds(frames: nat) -> nat {
    let n = rounded(frames, DIGITS as nat);
    nearest_quotient(n * pow2(doublings(n)), SAMPLE_RATE as nat)
}

/// Numerator of one minute, over the same denominator.
pub open spec fn minute(frames: nat) -> nat {
    60 * pow2(doublings(rounded(frames, DIGITS as nat)))
}

/// Thousandths of a second that are left behind the whole minutes, rounded.
pub open spec fn millis(frames: nat) -> nat {
    nearest_quotient(
        1000 * (seconds(frames) % minute(frames)),
        pow2(doublings(rounded(frames, DIGITS as nat))),
    )
}

/// A length as `minutes:seconds`, the seconds with two digits in front of the point
/// and three behind it.
pub open spec fn time_text(frames: nat) -> Seq<char> {
    decimal(seconds(frames) / minute(frames)) + ":"@ + padded(millis(frames) / 1000, 2) + "."@
        + padded(millis(frames) % 1000, 3)
}

/// A length as `minutes:seconds`, to a thousandth of a second.
pub fn fmt_time(frames: usize) -> (text: String)
    ensures
        text@ == time_text(frames as nat),
{
    let n: u128 = round_digits(frames as u128, DIGITS);
    let mut scaled: u128 = n;
    let mut unit: u128 = 1;
    proof {
        lemma2_to64();
        assert(n <= 0x2_0000_0000_0000_0000);
        assert(n * 1 == n);
    }
    let ghost all = doublings(n as nat);
    let ghost mut done: nat = 0;
    while scaled != 0 && scaled < SCALED
        invariant
            all == doublings(n as nat),
            done + doublings(scaled as nat) == all,
            unit == pow2(done),
            scaled == n * unit,
            scaled <= 2 * SCALED,
            n > 0 ==> unit <= scaled,
            n == 0 ==> scaled == 0 && unit == 1,
            n > 0 ==> scaled > 0,
            1 <= unit,
        decreases
                if scaled < SCALED {
                    SCALED - scaled
                } else {
                    0
                },
    {
        proof {
            lemma_pow2_unfold(done + 1);
            done = done + 1;
            assert(n * (unit * 2) == 2 * (n * unit)) by (nonlinear_arith);
            assert(unit * 2 <= n * (unit * 2)) by (nonlinear_arith)
                requires
                    n >= 1,
                    unit >= 1,
            ;
        }
        scaled = 2 * scaled;
        unit = unit * 2;
    }
    let seconds: u128 = divide_to_nearest(scaled, SAMPLE_RATE as u128);
    let minute: u128 = 60 * unit;
    let whole: u128 = seconds / minute;
    let rest: u128 = seconds % minute;
    let millis: u128 = divide_to_nearest(1000 * rest, unit);
    proof {
        assert(done == all);
        assert(seconds <= 0x40_0000_0000_0000);
        assert(whole <= seconds) by (nonlinear_arith)
            requires
                whole == seconds / minute,
                minute >= 1,
        ;
        assert(1000 * rest < 60000 * unit);
        vstd::arithmetic::div_mod::lemma_multiply_divide_lt(1000 * rest, unit as int, 60000);
    }
    let mut text = String::new();
    push_decimal(&mut text, whole as u64);
    text.append(":");
    push_padded(&mut text, (millis / 1000) as u64, 2);
    text.append(".");
    push_padded(&mut text, (millis % 1000) as u64, 3);
    text
}

/// The time shown is the length at 48 frames to the millisecond, to the nearest
/// millisecond while the number of frames has 53 binary digits, and nearly so beyond:
/// whole minutes, then seconds with two digits and thousandths with three.
pub proof fn time_is_nearest_millisecond(frames: nat) -> (shown: (nat, nat))
    requires
        frames <= 0xffff_ffff_ffff_ffff,
    ensures
        ({
            let (minutes, rest) = shown;
            let total = 60_000 * minutes + rest;
            &&& rest <= 60_000
            &&& frames < 0x20_0000_0000_0000 ==> frames - 24 <= 48 * total <= frames + 24
            &&& frames - 4300 <= 48 * total <= frames + 4300
            &&& time_text(frames) == decimal(minutes) + ":"@ + padded(rest / 1000, 2) + "."@ + padded(
                rest % 1000,
                3,
            )
        }),
{
    let n = rounded(frames, DIGITS as nat);
    let k = doublings(n);
    let unit = pow2(k);
    let s = seconds(frames);
    let m = s / minute(frames);
    let r = s % minute(frames);
    let ms = millis(frames);
    lemma_pow2_pos(k);
    if frames < DIGITS {
        few_digits_stay(frames, DIGITS as nat);
    }
    if frames == 0 {
        lemma2_to64();
        assert(k == 0 && unit == 1);
        assert(minute(frames) == 60);
        assert(n * unit == 0);
        nearest_quotient_is_nearest(0, SAMPLE_RATE as nat);
        assert(s == 0);
        assert(s / 60 == 0 && s % 60 == 0);
        nearest_quotient_is_nearest(0, 1);
        assert(ms == 0);
    } else {
        let spread = spacing(frames, DIGITS as nat);
        spacing_is_small(frames, DIGITS as nat);
        nearest_multiple_is_near(frames, spread);
        assert(spread <= 4096) by (nonlinear_arith)
            requires
                spread * DIGITS <= 2 * frames || spread == 1,
                frames <= 0xffff_ffff_ffff_ffff,
        ;
        rounded_keeps_order(1, frames, DIGITS as nat);
        few_digits_stay(1, DIGITS as nat);
        lemma_doublings(n);
        nearest_quotient_is_nearest(n * unit, 48_000);
        nearest_quotient_is_nearest(1000 * r, unit);
        vstd::arithmetic::div_mod::lemma_fundamental_div_mod(s as int, (60 * unit) as int);
        let total = 60_000 * m + ms;
        assert((60 * unit) * m == 60 * (m * unit)) by (nonlinear_arith);
        assert(total * unit == 60_000 * (m * unit) + ms * unit) by (nonlinear_arith)
            requires
                total == 60_000 * m + ms,
        ;
        assert(2 * (total * unit) <= 2000 * s + unit && 2000 * s <= 2 * (total * unit) + unit);
        lemma_time_is_near(n, unit, total);
        assert(ms <= 60_000) by (nonlinear_arith)
            requires
                2 * (ms * unit) <= 2 * (1000 * r) + unit,
                r < 60 * unit,
                unit >= 1,
        ;
    }
    (m, ms)
}

/// What is nearly equal in small units is nearly equal.
proof fn lemma_time_is_near(n: nat, unit: nat, total: nat)
    requires
        n * unit >= 216_172_782_113_783_808_000,
        n <= 0x1_0000_0000_0000_0800,
        48 * (total * unit) <= n * unit + 24 * unit + 24_000,
        n * unit <= 48 * (total * unit) + 24 * unit + 24_000,
    ensures
        n < 0x20_0000_0000_0000 ==> n - 24 <= 48 * total <= n + 24,
        n - 2206 <= 48 * total <= n + 2206,
{
    assert(unit >= 11) by (nonlinear_arith)
        requires
            n * unit >= 216_172_782_113_783_808_000,
            n <= 0x1_0000_0000_0000_0800,
    ;
    assert(48 * total <= n + 2206) by (nonlinear_arith)
        requires
            48 * (total * unit) <= n * unit + 24 * unit + 24_000,
            unit >= 11,
    ;
    assert(n <= 48 * total + 2206) by (nonlinear_arith)
        requires
            n * unit <= 48 * (total * unit) + 24 * unit + 24_000,
            unit >= 11,
    ;
    if n < 0x20_0000_0000_0000 {
        assert(unit > 24_000) by (nonlinear_arith)
            requires
                n * unit >= 216_172_782_113_783_808_000,
                n < 0x20_0000_0000_0000,
        ;
        assert(48 * total < n + 25) by (nonlinear_arith)
            requires
                48 * (total * unit) <= n * unit + 24 * unit + 24_000,
                unit > 24_000,
        ;
        assert(n < 48 * total + 25) by (nonlinear_arith)
            requires
                n * unit <= 48 * (total * unit) + 24 * unit + 24_000,
                unit > 24_000,
        ;
    }
}

proof fn lemma_doublings(n: nat)
    requires
        n > 0,
    ensures
        n * pow2(doublings(n)) >= SCALED,
    decreases
            if n < SCALED {
                SCALED - n
            } else {
                0
            },
{
    lemma2_to64();
    if n < SCALED {
        lemma_doublings(2 * n);
        let k = doublings(2 * n);
        lemma_pow2_unfold(k + 1);
        assert((2 * n) * pow2(k) == n * (2 * pow2(k))) by (nonlinear_arith);
    } else {
        assert(n * 1 == n);
    }
}

} // verus!
