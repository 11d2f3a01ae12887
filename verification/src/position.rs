//! Positions in the recording as binary64 values.
//!
//! Counting frames and taking one position from another are done on integers: a position
//! of at least one frame is a whole number of units of `2^-52` frames.

use crate::clock::DIGITS;
use crate::rounding::{
    nearest_multiple_is_near, nearest_quotient, round_digits, rounded, spacing, spacing_is_small,
};
use crate::view::{Real, INFINITY};
use vstd::arithmetic::power2::{
    lemma2_to64, lemma2_to64_rest, lemma_pow2_adds, lemma_pow2_pos, lemma_pow2_strictly_increases,
    lemma_pow2_unfold, pow2,
};
use vstd::prelude::*;

verus! {

/// Bits of the fraction: one past the largest.
pub const FRACTION: u64 = 0x10_0000_0000_0000;

/// The value one.
pub const ONE: u64 = 0x3ff0_0000_0000_0000;

/// The value `2^65`; every number of frames is below it.
pub const TOO_LONG: u64 = 0x4400_0000_0000_0000;

/// Exponent bits of a positive number.
pub open spec fn exponent(x: Real) -> nat {
    (x.bits / FRACTION) as nat
}

/// The 53 binary digits of a positive number.
pub open spec fn significand(x: Real) -> nat {
    (FRACTION + x.bits % FRACTION) as nat
}

/// A positive number with all its 53 digits.
pub open spec fn normal(x: Real) -> bool {
    FRACTION <= x.bits < INFINITY
}

/// The positive number `x` is `m * 2^(e - 1075)`.
pub open spec fn equals(x: Real, m: nat, e: nat) -> bool {
    normal(x) && significand(x) * pow2(exponent(x)) == m * pow2(e)
}

/// The positive number that is `m * 2^(e - 1075)`.
pub open spec fn real_of(m: nat, e: nat) -> Real {
    choose|x: Real| #[trigger] equals(x, m, e)
}

/// The position behind `frames` frames.
pub open spec fn position(frames: nat) -> Real {
    real_of(rounded(frames, DIGITS as nat), 1075)
}

/// A position of at least one frame, in units of `2^-52` frames.
pub open spec fn units(x: Real) -> nat {
    significand(x) * pow2((exponent(x) - 1023) as nat)
}

/// What is left of `full` beside `len`, rounded to a binary64 value.
pub open spec fn room(full: Real, len: Real) -> Real {
    real_of(rounded((units(full) - units(len)) as nat, DIGITS as nat), 1023)
}

proof fn lemma_value_increases(x: Real, y: Real)
    requires
        normal(x),
        normal(y),
        x.bits < y.bits,
    ensures
        significand(x) * pow2(exponent(x)) < significand(y) * pow2(exponent(y)),
{
    let (a, b) = (exponent(x), exponent(y));
    let (s, t) = (significand(x), significand(y));
    lemma_pow2_pos(a);
    lemma_pow2_pos(b);
    if a == b {
        assert(s < t);
        assert(s * pow2(a) < t * pow2(a)) by (nonlinear_arith)
            requires
                s < t,
                pow2(a) > 0,
        ;
    } else {
        assert(a < b);
        lemma_pow2_unfold(a + 1);
        if a + 1 < b {
            lemma_pow2_strictly_increases(a + 1, b);
        }
        assert(s * pow2(a) < t * pow2(b)) by (nonlinear_arith)
            requires
                s < 2 * FRACTION,
                FRACTION <= t,
                0 < pow2(a),
                2 * pow2(a) <= pow2(b),
        ;
    }
}

/// Positive numbers are ordered as what they stand for, and there is only one for each
/// value.
pub proof fn values_are_ordered(x: Real, m: nat, y: Real, n: nat, e: nat)
    requires
        equals(x, m, e),
        equals(y, n, e),
    ensures
        m < n <==> x.order() < y.order(),
        m == n <==> x == y,
{
    lemma_pow2_pos(e);
    if x.bits < y.bits {
        lemma_value_increases(x, y);
        assert(m < n) by (nonlinear_arith)
            requires
                m * pow2(e) < n * pow2(e),
        ;
    } else if y.bits < x.bits {
        lemma_value_increases(y, x);
        assert(n < m) by (nonlinear_arith)
            requires
                n * pow2(e) < m * pow2(e),
        ;
    } else {
        assert(m == n) by (nonlinear_arith)
            requires
                m * pow2(e) == n * pow2(e),
                pow2(e) > 0,
        ;
    }
}

/// `m` is `q * 2^k`.
spec fn is_product(m: nat, q: nat, k: nat) -> bool {
    m == q * pow2(k)
}

/// `m` has at most 53 binary digits in front of its trailing zeros.
spec fn short(m: nat) -> bool {
    exists|q: nat, k: nat| 1 <= q <= DIGITS && #[trigger] is_product(m, q, k)
}

proof fn lemma_short_halves(m: nat)
    requires
        short(m),
        m >= DIGITS,
    ensures
        m % 2 == 0,
        short(m / 2),
{
    let (q, k) = choose|q: nat, k: nat| 1 <= q <= DIGITS && #[trigger] is_product(m, q, k);
    lemma2_to64();
    if k == 0 {
        assert(q * 1 == q);
        assert(is_product(m / 2, (DIGITS / 2) as nat, 0));
    } else {
        lemma_pow2_unfold(k);
        let half = pow2((k - 1) as nat);
        assert(m == 2 * (q * half)) by (nonlinear_arith)
            requires
                m == q * (2 * half),
        ;
        assert(is_product(m / 2, q, (k - 1) as nat));
    }
}

proof fn lemma_spacing_is_power(p: nat, top: nat) -> (k: nat)
    requires
        top > 0,
    ensures
        spacing(p, top) == pow2(k),
        p < top * spacing(p, top),
    decreases p,
{
    lemma2_to64();
    if p < top {
        0
    } else {
        let k = lemma_spacing_is_power(p / 2, top);
        lemma_pow2_unfold(k + 1);
        let half = spacing(p / 2, top);
        assert(top * (2 * half) == 2 * (top * half)) by (nonlinear_arith);
        k + 1
    }
}

proof fn lemma_rounded_is_short(p: nat)
    requires
        1 <= p,
    ensures
        short(rounded(p, DIGITS as nat)),
        rounded(p, DIGITS as nat) >= 1,
{
    let top = DIGITS as nat;
    let unit = spacing(p, top);
    let k = lemma_spacing_is_power(p, top);
    spacing_is_small(p, top);
    let q = nearest_quotient(p, unit);
    vstd::arithmetic::div_mod::lemma_multiply_divide_lt(p as int, unit as int, top as int);
    assert(unit * top == top * unit) by (nonlinear_arith);
    assert(p / unit >= 1) by {
        assert(unit <= p) by (nonlinear_arith)
            requires
                unit * top <= 2 * p || unit == 1,
                top >= 2,
                p >= 1,
        ;
        vstd::arithmetic::div_mod::lemma_div_non_zero(p as int, unit as int);
    }
    assert(is_product(rounded(p, top), q, k));
    assert(q * unit >= 1) by (nonlinear_arith)
        requires
            q >= 1,
            unit >= 1,
    ;
}

proof fn lemma_pow2_at_least(k: nat, bound: nat)
    requires
        pow2(k) <= bound,
        bound < pow2(128),
    ensures
        k < 128,
{
    if k > 128 {
        lemma_pow2_strictly_increases(128, k);
    }
}

proof fn lemma_pow2_128()
    ensures
        pow2(128) == u128::MAX + 1,
{
    lemma2_to64();
    lemma2_to64_rest();
    lemma_pow2_adds(64, 64);
    assert(pow2(64) == 0x1_0000_0000_0000_0000);
    assert(pow2(64) * pow2(64) == u128::MAX + 1) by (nonlinear_arith)
        requires
            pow2(64) == 0x1_0000_0000_0000_0000,
    ;
}

/// A number of at most 53 digits has a binary64 value: doubled `d` times it has them all.
proof fn lemma_representable_small(m: nat, e: nat, d: nat) -> (x: Real)
    requires
        m < DIGITS,
        d <= 52,
        pow2((52 - d) as nat) <= m,
        d < e <= 2046,
    ensures
        equals(x, m, e),
    decreases d,
{
    lemma2_to64();
    lemma2_to64_rest();
    if m >= FRACTION {
        let x = Real { bits: (e * FRACTION + (m - FRACTION)) as u64 };
        assert(exponent(x) == e && significand(x) == m);
        x
    } else {
        let half = pow2((e - 1) as nat);
        lemma_pow2_unfold(e);
        lemma_pow2_unfold((53 - d) as nat);
        assert((2 * m) * half == m * (2 * half)) by (nonlinear_arith);
        lemma_representable_small(2 * m, (e - 1) as nat, (d - 1) as nat)
    }
}

/// A number with trailing zeros has a binary64 value: halved `j` times it has at most 53
/// digits.
proof fn lemma_representable(m: nat, e: nat, j: nat) -> (x: Real)
    requires
        1 <= m < pow2(53 + j),
        short(m),
        52 < e,
        e + j <= 2046,
    ensures
        equals(x, m, e),
    decreases j,
{
    lemma2_to64();
    lemma2_to64_rest();
    if m < DIGITS {
        lemma_representable_small(m, e, 52)
    } else {
        lemma_short_halves(m);
        lemma_pow2_unfold(53 + j);
        lemma_pow2_unfold(e + 1);
        let half = m / 2;
        assert(half * (2 * pow2(e)) == (2 * half) * pow2(e)) by (nonlinear_arith);
        lemma_representable(half, e + 1, (j - 1) as nat)
    }
}

/// Rounded integers have a binary64 value.
proof fn lemma_real_of_rounded(p: nat, e: nat)
    requires
        1 <= p <= u128::MAX / 4,
        52 < e <= 1500,
    ensures
        equals(real_of(rounded(p, DIGITS as nat), e), rounded(p, DIGITS as nat), e),
{
    let m = rounded(p, DIGITS as nat);
    let unit = spacing(p, DIGITS as nat);
    lemma_rounded_is_short(p);
    spacing_is_small(p, DIGITS as nat);
    nearest_multiple_is_near(p, unit);
    assert(unit <= 2 * p) by (nonlinear_arith)
        requires
            unit * DIGITS <= 2 * p || unit == 1,
            p >= 1,
    ;
    lemma_pow2_128();
    let x = lemma_representable(m, e, 75);
    assert(equals(x, m, e));
}

/// Every number of frames is a position, at least one and not too long.
pub proof fn position_is_bounded(frames: nat)
    requires
        1 <= frames <= 0xffff_ffff_ffff_ffff,
    ensures
        equals(position(frames), rounded(frames, DIGITS as nat), 1075),
        ONE <= position(frames).bits < TOO_LONG,
{
    let unit = spacing(frames, DIGITS as nat);
    lemma_real_of_rounded(frames, 1075);
    lemma_rounded_is_short(frames);
    spacing_is_small(frames, DIGITS as nat);
    nearest_multiple_is_near(frames, unit);
    assert(unit <= 0x1_0000_0000_0000_0000) by (nonlinear_arith)
        requires
            unit * DIGITS <= 2 * frames || unit == 1,
            frames <= 0xffff_ffff_ffff_ffff,
    ;
    lemma_position_bounds(position(frames), rounded(frames, DIGITS as nat));
}

/// The binary64 value `m * 2^(e - 1075)`.
fn encode(m: u128, e: u64) -> (x: Real)
    requires
        1 <= m,
        short(m as nat),
        100 <= e <= 1500,
    ensures
        equals(x, m as nat, e as nat),
        x == real_of(m as nat, e as nat),
{
    let mut digits: u128 = m;
    let mut power: u64 = e;
    proof {
        lemma2_to64();
        lemma2_to64_rest();
        lemma_pow2_128();
        assert(digits * 1 == digits);
    }
    while digits >= DIGITS
        invariant
            pow2(128) == u128::MAX + 1,
            1 <= digits,
            short(digits as nat),
            e <= power <= 1500 + 128,
            e <= 1500,
            digits * pow2((power - e) as nat) == m,
            digits * pow2(power as nat) == m * pow2(e as nat),
        decreases digits,
    {
        proof {
            let k = (power - e) as nat;
            lemma_short_halves(digits as nat);
            lemma_pow2_unfold(k + 1);
            lemma_pow2_unfold((power + 1) as nat);
            let half = digits as nat / 2;
            assert(half * (2 * pow2(k)) == (2 * half) * pow2(k)) by (nonlinear_arith);
            assert(half * (2 * pow2(power as nat)) == (2 * half) * pow2(power as nat))
                by (nonlinear_arith);
            assert(pow2(k) <= digits * pow2(k)) by (nonlinear_arith)
                requires
                    digits >= 1,
            ;
            lemma_pow2_at_least(k, m as nat);
        }
        digits = digits / 2;
        power = power + 1;
    }
    let ghost most = power;
    proof {
        assert(pow2(0) == 1);
    }
    while digits < DIGITS / 2
        invariant
            1 <= digits < DIGITS,
            100 <= most <= 1500 + 128,
            power <= most <= power + 52,
            pow2(52) == DIGITS / 2,
            pow2((most - power) as nat) <= digits,
            digits * pow2(power as nat) == m * pow2(e as nat),
        decreases DIGITS - digits,
    {
        proof {
            let done = (most - power) as nat;
            lemma_pow2_unfold(done + 1);
            lemma_pow2_unfold(power as nat);
            let half = pow2((power - 1) as nat);
            assert((2 * digits) * half == digits * (2 * half)) by (nonlinear_arith);
            if done >= 52 {
                assert(done == 52);
            }
        }
        digits = 2 * digits;
        power = power - 1;
    }
    let fraction: u64 = (digits - DIGITS / 2) as u64;
    assert(power * FRACTION + fraction < INFINITY);
    let x = Real { bits: power * FRACTION + fraction };
    proof {
        assert(exponent(x) == power);
        assert(significand(x) == digits);
        assert(equals(x, m as nat, e as nat));
        let y = real_of(m as nat, e as nat);
        values_are_ordered(x, m as nat, y, m as nat, e as nat);
    }
    x
}

proof fn lemma_units(x: Real)
    requires
        ONE <= x.bits < INFINITY,
    ensures
        equals(x, units(x), 1023),
{
    let k = (exponent(x) - 1023) as nat;
    lemma_pow2_adds(k, 1023);
    let s = significand(x);
    assert(s * (pow2(k) * pow2(1023)) == (s * pow2(k)) * pow2(1023)) by (nonlinear_arith);
}

proof fn lemma_units_bounded(x: Real)
    requires
        ONE <= x.bits < TOO_LONG,
    ensures
        units(x) <= u128::MAX / 4,
{
    let k = (exponent(x) - 1023) as nat;
    lemma2_to64();
    lemma2_to64_rest();
    if k < 64 {
        lemma_pow2_strictly_increases(k, 64);
    }
    let s = significand(x);
    assert(s * pow2(k) <= DIGITS * 0x1_0000_0000_0000_0000) by (nonlinear_arith)
        requires
            s < DIGITS,
            pow2(k) <= 0x1_0000_0000_0000_0000,
    ;
}

/// A position of at least one frame, in units of `2^-52` frames.
fn decode(x: Real) -> (m: u128)
    requires
        ONE <= x.bits < TOO_LONG,
    ensures
        m == units(x),
        m <= u128::MAX / 4,
{
    let digits: u128 = (FRACTION + x.bits % FRACTION) as u128;
    let power: u64 = x.bits / FRACTION - 1023;
    let mut m: u128 = digits;
    let mut i: u64 = 0;
    proof {
        lemma2_to64();
        lemma2_to64_rest();
        assert(digits * 1 == digits);
    }
    while i < power
        invariant
            i <= power <= 64,
            digits < DIGITS,
            m == digits * pow2(i as nat),
            pow2(64) == 0x1_0000_0000_0000_0000,
            pow2(i as nat) <= pow2(64),
        decreases power - i,
    {
        proof {
            lemma_pow2_unfold((i + 1) as nat);
            if i + 1 < 64 {
                lemma_pow2_strictly_increases((i + 1) as nat, 64);
            }
            assert(digits * (2 * pow2(i as nat)) == 2 * (digits * pow2(i as nat)))
                by (nonlinear_arith);
            assert(digits * pow2(i as nat) <= DIGITS * 0x1_0000_0000_0000_0000)
                by (nonlinear_arith)
                requires
                    digits < DIGITS,
                    pow2(i as nat) <= 0x1_0000_0000_0000_0000,
            ;
        }
        m = 2 * m;
        i = i + 1;
    }
    proof {
        assert(digits * pow2(i as nat) <= DIGITS * 0x1_0000_0000_0000_0000) by (nonlinear_arith)
            requires
                digits < DIGITS,
                pow2(i as nat) <= 0x1_0000_0000_0000_0000,
        ;
    }
    m
}

/// What numbers of frames are: at least one, and not too long.
proof fn lemma_position_bounds(x: Real, m: nat)
    requires
        equals(x, m, 1075),
        1 <= m < 0x2_0000_0000_0000_0000,
    ensures
        ONE <= x.bits < TOO_LONG,
{
    let one = Real { bits: ONE };
    let long = Real { bits: TOO_LONG };
    lemma2_to64();
    lemma2_to64_rest();
    lemma_pow2_adds(52, 1023);
    assert(equals(one, 1, 1075)) by {
        assert(significand(one) == pow2(52) && exponent(one) == 1023);
        assert(1 * pow2(1075) == pow2(1075));
    }
    lemma_pow2_adds(13, 1075);
    assert(equals(long, 0x2_0000_0000_0000_0000, 1075)) by {
        assert(significand(long) == FRACTION && exponent(long) == 1088);
        let p = pow2(1075);
        assert(FRACTION * (8192 * p) == 0x2_0000_0000_0000_0000 * p) by (nonlinear_arith);
    }
    values_are_ordered(x, m, one, 1, 1075);
    values_are_ordered(x, m, long, 0x2_0000_0000_0000_0000, 1075);
}

/// The position behind `frames` frames: their number, rounded to a binary64 value.
pub fn frames_position(frames: usize) -> (x: Real)
    requires
        1 <= frames,
    ensures
        x == position(frames as nat),
        equals(x, rounded(frames as nat, DIGITS as nat), 1075),
        ONE <= x.bits < TOO_LONG,
{
    let m: u128 = round_digits(frames as u128, DIGITS);
    proof {
        lemma_rounded_is_short(frames as nat);
        position_is_bounded(frames as nat);
    }
    encode(m, 1075)
}

/// What is left of `full` beside `len`: the difference, rounded to a binary64 value.
pub fn room_beside(full: Real, len: Real) -> (x: Real)
    requires
        ONE <= len.bits < full.bits < TOO_LONG,
    ensures
        x == room(full, len),
        normal(x),
        units(len) < units(full),
        equals(x, rounded((units(full) - units(len)) as nat, DIGITS as nat), 1023),
{
    let a: u128 = decode(full);
    let b: u128 = decode(len);
    proof {
        lemma_units(full);
        lemma_units(len);
        values_are_ordered(len, b as nat, full, a as nat, 1023);
        lemma_rounded_is_short((a - b) as nat);
    }
    let m: u128 = round_digits(a - b, DIGITS);
    encode(m, 1023)
}

/// The room beside a length is their difference to within half of the spacing of the
/// binary64 values there, and exactly the difference as long as that has 53 digits.
pub proof fn room_is_difference(full: Real, len: Real)
    requires
        ONE <= len.bits < full.bits < TOO_LONG,
    ensures
        ({
            let exact = (units(full) - units(len)) as nat;
            let near = rounded(exact, DIGITS as nat);
            let unit = spacing(exact, DIGITS as nat);
            &&& units(len) < units(full)
            &&& equals(room(full, len), near, 1023)
            &&& 2 * near <= 2 * exact + unit
            &&& 2 * exact <= 2 * near + unit
            &&& exact < DIGITS ==> near == exact
        }),
{
    lemma_units(full);
    lemma_units(len);
    values_are_ordered(len, units(len), full, units(full), 1023);
    let exact = (units(full) - units(len)) as nat;
    lemma_units_bounded(full);
    lemma_real_of_rounded(exact, 1023);
    spacing_is_small(exact, DIGITS as nat);
    nearest_multiple_is_near(exact, spacing(exact, DIGITS as nat));
    if exact < DIGITS {
        assert(nearest_quotient(exact, 1) == exact);
        assert(exact * 1 == exact);
    }
}

/// A binary64 pattern is the exponent and, below it, the 53 digits without the first.
pub proof fn pattern_is_exponent_and_digits(m: nat, e: nat)
    requires
        0x10_0000_0000_0000 <= m < 0x20_0000_0000_0000,
        1 <= e <= 2046,
    ensures
        equals(Real { bits: (e * 0x10_0000_0000_0000 + (m - 0x10_0000_0000_0000)) as u64 }, m, e),
{
    let x = Real { bits: (e * FRACTION + (m - FRACTION)) as u64 };
    assert(exponent(x) == e && significand(x) == m);
}

/// Twice the digits with an exponent less by one stand for the same number.
pub proof fn digits_and_exponent_balance(x: Real, m: nat, e: nat)
    ensures
        equals(x, m, e + 1) <==> equals(x, 2 * m, e),
{
    lemma_pow2_unfold(e + 1);
    assert(m * (2 * pow2(e)) == (2 * m) * pow2(e)) by (nonlinear_arith);
}

/// The units of a position are `2^-52` frames.
pub proof fn units_are_of_the_position(x: Real)
    requires
        0x3ff0_0000_0000_0000 <= x.bits < 0x7ff0_0000_0000_0000,
    ensures
        equals(x, units(x), 1023),
{
    lemma_units(x);
}

} // verus!
