//! Rounding as binary floating point does it, on integers.

use vstd::arithmetic::power2::{lemma2_to64, lemma_pow2_unfold, pow2};
use vstd::prelude::*;

verus! {

/// The spacing of the numbers with as many binary digits as there are below `top`,
/// around the integer `p`: one, doubled until that many digits reach past `p`.
pub open spec fn spacing(p: nat, top: nat) -> nat
    decreases p,
{
    if p < top || p == 0 {
        1
    } else {
        2 * spacing(p / 2, top)
    }
}

/// The integer nearest to `p / unit`, the even one if two are equally near.
pub open spec fn nearest_quotient(p: nat, unit: nat) -> nat {
    let low = p / unit;
    let rest = p % unit;
    if 2 * rest < unit || (2 * rest == unit && low % 2 == 0) {
        low
    } else {
        low + 1
    }
}

/// The multiple of `unit` nearest to `p`, the even one if two are equally near.
pub open spec fn nearest_multiple(p: nat, unit: nat) -> nat {
    nearest_quotient(p, unit) * unit
}

/// `p` rounded to a number with as many binary digits as there are below `top`.
pub open spec fn rounded(p: nat, top: nat) -> nat {
    nearest_multiple(p, spacing(p, top))
}

/// The integer nearest to `p / unit`, the larger one if two are equally near.
pub open spec fn half_up(p: nat, unit: nat) -> nat {
    (2 * p + unit) / (2 * unit)
}

/// Rounding to a multiple of `unit` moves by at most half of it.
pub proof fn nearest_multiple_is_near(p: nat, unit: nat)
    requires
        unit > 0,
    ensures
        2 * nearest_multiple(p, unit) <= 2 * p + unit,
        2 * p <= 2 * nearest_multiple(p, unit) + unit,
{
    vstd::arithmetic::div_mod::lemma_fundamental_div_mod(p as int, unit as int);
    let low = p / unit;
    assert((low + 1) * unit == low * unit + unit) by (nonlinear_arith);
    assert(unit * low == low * unit) by (nonlinear_arith);
}

/// The nearest integer to less than `whole` and a half units is at most `whole`.
pub proof fn half_up_is_bounded(p: nat, unit: nat, whole: nat, extra: nat)
    requires
        unit > 0,
        p <= whole * unit + extra,
        2 * extra < unit,
    ensures
        half_up(p, unit) <= whole,
{
    assert(2 * p + unit < (whole + 1) * (2 * unit)) by (nonlinear_arith)
        requires
            p <= whole * unit + extra,
            2 * extra < unit,
    ;
    vstd::arithmetic::div_mod::lemma_multiply_divide_lt(
        (2 * p + unit) as int,
        (2 * unit) as int,
        (whole + 1) as int,
    );
}

/// A number is at least `top / 2` times its spacing, once it has `top`'s digits.
pub proof fn spacing_is_small(p: nat, top: nat)
    requires
        top > 0,
    ensures
        spacing(p, top) >= 1,
        spacing(p, top) * top <= 2 * p || spacing(p, top) == 1,
    decreases p,
{
    if p >= top {
        spacing_is_small(p / 2, top);
        let half = spacing(p / 2, top);
        assert((2 * half) * top == 2 * (half * top)) by (nonlinear_arith);
        if p / 2 < top {
            assert(half == 1);
        }
    }
}

/// The spacing stays from one number to the next, or doubles where the digits run out.
proof fn lemma_spacing_step(p: nat, top: nat)
    requires
        top >= 2,
    ensures
        spacing(p + 1, top) == spacing(p, top) || (p + 1 == top * spacing(p, top) && spacing(
            p + 1,
            top,
        ) == 2 * spacing(p, top)),
    decreases p,
{
    if p >= top {
        let half = spacing(p / 2, top);
        if p % 2 == 1 {
            lemma_spacing_step(p / 2, top);
            assert((p + 1) / 2 == p / 2 + 1);
            assert(top * (2 * half) == 2 * (top * half)) by (nonlinear_arith);
        } else {
            assert((p + 1) / 2 == p / 2);
        }
    } else if p + 1 == top {
        assert(spacing((top / 2) as nat, top) == 1);
    }
}

/// Below the end of the digits, rounding does not reach past it.
proof fn lemma_quotient_bounded(p: nat, unit: nat, top: nat)
    requires
        unit > 0,
        p < top * unit,
    ensures
        nearest_multiple(p, unit) <= top * unit,
{
    assert(unit * top == top * unit) by (nonlinear_arith);
    vstd::arithmetic::div_mod::lemma_multiply_divide_lt(p as int, unit as int, top as int);
    let q = nearest_quotient(p, unit);
    assert(q * unit <= top * unit) by (nonlinear_arith)
        requires
            q <= top,
    ;
}

proof fn lemma_nearest_step(p: nat, unit: nat)
    requires
        unit > 0,
    ensures
        nearest_multiple(p, unit) <= nearest_multiple(p + 1, unit),
{
    let low = p / unit;
    let rest = p % unit;
    vstd::arithmetic::div_mod::lemma_fundamental_div_mod(p as int, unit as int);
    if rest + 1 < unit {
        assert(p + 1 == low * unit + (rest + 1)) by (nonlinear_arith)
            requires
                p == unit * low + rest,
        ;
        vstd::arithmetic::div_mod::lemma_fundamental_div_mod_converse(
            (p + 1) as int,
            unit as int,
            low as int,
            (rest + 1) as int,
        );
    } else {
        assert(p + 1 == (low + 1) * unit + 0) by (nonlinear_arith)
            requires
                p == unit * low + rest,
                rest + 1 == unit,
        ;
        vstd::arithmetic::div_mod::lemma_fundamental_div_mod_converse(
            (p + 1) as int,
            unit as int,
            (low + 1) as int,
            0,
        );
    }
    let (q, r) = (nearest_quotient(p, unit), nearest_quotient(p + 1, unit));
    assert(q <= r);
    assert(q * unit <= r * unit) by (nonlinear_arith)
        requires
            q <= r,
    ;
}

/// Rounding keeps the order of numbers.
pub proof fn rounded_keeps_order(p: nat, q: nat, top: nat)
    requires
        top >= 2,
        top % 2 == 0,
        p <= q,
    ensures
        rounded(p, top) <= rounded(q, top),
    decreases q - p,
{
    if p < q {
        rounded_keeps_order(p + 1, q, top);
        let unit = spacing(p, top);
        spacing_is_small(p, top);
        lemma_spacing_step(p, top);
        if spacing(p + 1, top) == unit {
            lemma_nearest_step(p, unit);
        } else {
            lemma_quotient_bounded(p, unit, top);
            let half = top / 2;
            assert(p + 1 == half * (2 * unit) + 0) by (nonlinear_arith)
                requires
                    p + 1 == top * unit,
                    top == 2 * half,
            ;
            vstd::arithmetic::div_mod::lemma_fundamental_div_mod_converse(
                (p + 1) as int,
                (2 * unit) as int,
                half as int,
                0,
            );
        }
    }
}

/// Rounding commutes with doubling.
pub proof fn rounded_doubles(p: nat, top: nat)
    requires
        top >= 2,
    ensures
        rounded(2 * p, top) == 2 * rounded(p, top),
{
    if 2 * p < top {
        assert(nearest_quotient(2 * p, 1) == 2 * p && nearest_quotient(p, 1) == p);
        assert((2 * p) * 1 == 2 * p && p * 1 == p);
    } else {
        let unit = spacing(p, top);
        spacing_is_small(p, top);
        assert((2 * p) / 2 == p);
        assert(spacing(2 * p, top) == 2 * unit);
        let low = p / unit;
        let rest = p % unit;
        vstd::arithmetic::div_mod::lemma_fundamental_div_mod(p as int, unit as int);
        assert(2 * p == low * (2 * unit) + 2 * rest) by (nonlinear_arith)
            requires
                p == unit * low + rest,
        ;
        vstd::arithmetic::div_mod::lemma_fundamental_div_mod_converse(
            (2 * p) as int,
            (2 * unit) as int,
            low as int,
            (2 * rest) as int,
        );
        let q = nearest_quotient(p, unit);
        assert(nearest_quotient(2 * p, 2 * unit) == q);
        assert(q * (2 * unit) == 2 * (q * unit)) by (nonlinear_arith);
    }
}

/// Halves are rounded up in order, and doubling both sides changes nothing.
pub proof fn half_up_keeps_order(p: nat, q: nat, unit: nat)
    requires
        unit > 0,
        p <= q,
    ensures
        half_up(p, unit) <= half_up(q, unit),
        half_up(2 * p, 2 * unit) == half_up(p, unit),
{
    vstd::arithmetic::div_mod::lemma_div_is_ordered(
        (2 * p + unit) as int,
        (2 * q + unit) as int,
        (2 * unit) as int,
    );
    assert(2 * (2 * p) + 2 * unit == 2 * (2 * p + unit));
    vstd::arithmetic::div_mod::lemma_div_multiples_vanish_quotient(
        2,
        (2 * p + unit) as int,
        (2 * unit) as int,
    );
}

/// A number whose digits are enough is not rounded.
pub proof fn few_digits_stay(p: nat, top: nat)
    requires
        p < top,
    ensures
        rounded(p, top) == p,
{
    assert(nearest_quotient(p, 1) == p);
    assert(nearest_multiple(p, 1) == p) by {
        vstd::arithmetic::mul::lemma_mul_basics(p as int);
    }
}

/// The nearest quotient is off by at most half a unit, and even where it is off by just
/// that.
pub proof fn nearest_quotient_is_nearest(p: nat, unit: nat)
    requires
        unit > 0,
    ensures
        2 * (nearest_quotient(p, unit) * unit) <= 2 * p + unit,
        2 * p <= 2 * (nearest_quotient(p, unit) * unit) + unit,
        2 * (nearest_quotient(p, unit) * unit) == 2 * p + unit ==> nearest_quotient(p, unit) % 2
            == 0,
        2 * p == 2 * (nearest_quotient(p, unit) * unit) + unit ==> nearest_quotient(p, unit) % 2
            == 0,
{
    nearest_multiple_is_near(p, unit);
    vstd::arithmetic::div_mod::lemma_fundamental_div_mod(p as int, unit as int);
    let low = p / unit;
    assert((low + 1) * unit == low * unit + unit) by (nonlinear_arith);
    assert(unit * low == low * unit) by (nonlinear_arith);
}

/// Rounding up halves is off by at most half a unit, and upwards where it is off by just
/// that.
pub proof fn half_up_is_nearest(p: nat, unit: nat)
    requires
        unit > 0,
    ensures
        2 * (half_up(p, unit) * unit) <= 2 * p + unit,
        2 * p < 2 * (half_up(p, unit) * unit) + unit,
{
    let q = half_up(p, unit);
    vstd::arithmetic::div_mod::lemma_fundamental_div_mod(
        (2 * p + unit) as int,
        (2 * unit) as int,
    );
    assert((2 * unit) * q == 2 * (q * unit)) by (nonlinear_arith);
}

/// A number is rounded to a multiple of a power of two: of one if its digits are enough,
/// and else of the least that leaves no more than the digits there are.
pub proof fn spacing_leaves_the_digits(p: nat, top: nat) -> (k: nat)
    requires
        top > 0,
    ensures
        spacing(p, top) == pow2(k),
        p < top * pow2(k),
        k > 0 ==> top * pow2(k) <= 2 * p,
        rounded(p, top) == nearest_quotient(p, pow2(k)) * pow2(k),
    decreases p,
{
    lemma2_to64();
    if p < top {
        0
    } else {
        let k = spacing_leaves_the_digits(p / 2, top);
        lemma_pow2_unfold(k + 1);
        let half = pow2(k);
        assert(top * (2 * half) == 2 * (top * half)) by (nonlinear_arith);
        assert(top * 1 == top);
        k + 1
    }
}

/// The nearest integer to a quotient.
pub fn divide_to_nearest(p: u128, unit: u128) -> (q: u128)
    requires
        0 < unit,
        2 * unit <= u128::MAX,
    ensures
        q == nearest_quotient(p as nat, unit as nat),
{
    let low: u128 = p / unit;
    let rest: u128 = p % unit;
    if 2 * rest < unit || (2 * rest == unit && low % 2 == 0) {
        low
    } else {
        assert(low < u128::MAX) by {
            if unit == 1 {
            } else {
                assert(p / unit <= p / 2) by {
                    vstd::arithmetic::div_mod::lemma_div_is_ordered_by_denominator(
                        p as int,
                        2,
                        unit as int,
                    );
                }
            }
        }
        low + 1
    }
}

/// `p` rounded to a number with as many binary digits as there are below `top`.
pub fn round_digits(p: u128, top: u128) -> (r: u128)
    requires
        2 <= top,
        p <= u128::MAX / 4,
    ensures
        r == rounded(p as nat, top as nat),
        2 * r <= 2 * p + spacing(p as nat, top as nat),
        spacing(p as nat, top as nat) * top <= 2 * p || spacing(p as nat, top as nat) == 1,
{
    let mut unit: u128 = 1;
    let mut rest: u128 = p;
    while rest >= top
        invariant
            2 <= top,
            p <= u128::MAX / 4,
            unit * spacing(rest as nat, top as nat) == spacing(p as nat, top as nat),
            1 <= unit,
            unit * rest <= p,
        decreases rest,
    {
        let ghost half = spacing((rest / 2) as nat, top as nat);
        assert((unit * 2) * half == unit * (2 * half)) by (nonlinear_arith);
        assert(unit * 2 * (rest / 2) <= unit * rest && unit * 2 <= unit * rest)
            by (nonlinear_arith)
            requires
                rest >= 2,
                unit >= 1,
        ;
        unit = unit * 2;
        rest = rest / 2;
    }
    proof {
        assert(unit * 1 == unit);
        spacing_is_small(p as nat, top as nat);
        nearest_multiple_is_near(p as nat, unit as nat);
        assert(unit <= p || unit == 1) by (nonlinear_arith)
            requires
                unit * top <= 2 * p || unit == 1,
                top >= 2,
        ;
    }
    let quotient: u128 = divide_to_nearest(p, unit);
    quotient * unit
}

} // verus!
