//! Audio samples as bit patterns.
//!
//! A sample is an IEEE 754 binary32 value. The library never computes with such
//! values, it orders them; and their order is that of their sign and magnitude
//! bits. So a sample is held as its 32 bits, and minimum, maximum, magnitude and
//! clamping are integer operations on them.

use crate::rounding::{
    few_digits_stay, half_up, half_up_is_bounded, half_up_is_nearest, half_up_keeps_order,
    nearest_multiple_is_near, round_digits, rounded, rounded_doubles, rounded_keeps_order, spacing,
    spacing_is_small, spacing_leaves_the_digits,
};
use vstd::arithmetic::power2::{
    lemma2_to64, lemma2_to64_rest, lemma_pow2_pos, lemma_pow2_strictly_increases,
    lemma_pow2_unfold, pow2,
};
use vstd::prelude::*;

verus! {

/// Bits of the sign; a pattern below this is positive.
pub const SIGN: u32 = 0x8000_0000;

/// Magnitude of infinity; every larger magnitude is "not a number".
pub const INFINITY: u32 = 0x7f80_0000;

/// Largest finite magnitude.
pub const LARGEST: u32 = 0x7f7f_ffff;

/// Magnitude of the value one.
pub const ONE: u32 = 0x3f80_0000;

/// One binary32 value, as its bit pattern.
#[derive(Clone, Copy, Debug, PartialEq, Eq, Structural)]
pub struct Sample {
    pub bits: u32,
}

/// One moment of stereo audio.
#[derive(Clone, Copy, Debug, PartialEq, Eq, Structural)]
pub struct Frame {
    pub l: Sample,
    pub r: Sample,
}

/// The value zero.
pub open spec fn zero() -> Sample {
    Sample { bits: 0 }
}

impl Sample {
    /// The pattern without its sign.
    pub open spec fn magnitude_bits(self) -> int {
        if self.bits >= SIGN {
            self.bits - SIGN
        } else {
            self.bits as int
        }
    }

    /// Whether the pattern stands for no number.
    pub open spec fn nan(self) -> bool {
        self.magnitude_bits() > INFINITY
    }

    /// Position on the number line: for two patterns that are numbers, one value
    /// is below another exactly when its `order` is. Both zeros have order 0.
    pub open spec fn order(self) -> int {
        if self.bits >= SIGN {
            -(self.bits - SIGN)
        } else {
            self.bits as int
        }
    }

    pub fn from_bits(bits: u32) -> (s: Sample)
        ensures
            s.bits == bits,
    {
        Sample { bits }
    }

    pub fn to_bits(self) -> (bits: u32)
        ensures
            bits == self.bits,
    {
        self.bits
    }

    pub fn is_nan(self) -> (b: bool)
        ensures
            b == self.nan(),
    {
        let magnitude: u32 = if self.bits >= SIGN { self.bits - SIGN } else { self.bits };
        magnitude > INFINITY
    }

    /// `self < other` as numbers; false when either is no number.
    pub fn below(self, other: Sample) -> (b: bool)
        ensures
            b == (!self.nan() && !other.nan() && self.order() < other.order()),
    {
        if self.is_nan() || other.is_nan() {
            return false;
        }
        if self.bits >= SIGN {
            if other.bits >= SIGN {
                self.bits > other.bits
            } else {
                self.bits > SIGN || other.bits > 0
            }
        } else {
            other.bits < SIGN && self.bits < other.bits
        }
    }

    /// The smaller of two samples. What is no number loses against a number; of
    /// two equal values the first is kept.
    pub fn min(self, other: Sample) -> (s: Sample)
        ensures
            s == lesser(self, other),
    {
        if self.is_nan() && !other.is_nan() || other.below(self) {
            other
        } else {
            self
        }
    }

    /// The larger of two samples, with the same rules as [`Sample::min`].
    pub fn max(self, other: Sample) -> (s: Sample)
        ensures
            s == greater(self, other),
    {
        if self.is_nan() && !other.is_nan() || self.below(other) {
            other
        } else {
            self
        }
    }

    /// The sample without its sign.
    pub fn abs(self) -> (s: Sample)
        ensures
            s == magnitude(self),
    {
        if self.bits >= SIGN {
            Sample { bits: self.bits - SIGN }
        } else {
            self
        }
    }

    /// The nearest sample in `[low, high]`; what is no number stays as it is.
    pub fn clamp(self, low: Sample, high: Sample) -> (s: Sample)
        requires
            !low.nan(),
            !high.nan(),
            low.order() <= high.order(),
        ensures
            s == clamped(self, low, high),
    {
        if self.below(low) {
            low
        } else if high.below(self) {
            high
        } else {
            self
        }
    }
}

/// Minimum of two samples: a number wins over what is none, and of two equal
/// values the first is taken.
pub open spec fn lesser(a: Sample, b: Sample) -> Sample {
    if b.nan() || (!a.nan() && a.order() <= b.order()) {
        a
    } else {
        b
    }
}

/// Maximum of two samples, with the same rules as [`lesser`].
pub open spec fn greater(a: Sample, b: Sample) -> Sample {
    if b.nan() || (!a.nan() && a.order() >= b.order()) {
        a
    } else {
        b
    }
}

/// Absolute value.
pub open spec fn magnitude(a: Sample) -> Sample {
    Sample { bits: a.magnitude_bits() as u32 }
}

/// `a` moved into `[low, high]`, if it is a number.
pub open spec fn clamped(a: Sample, low: Sample, high: Sample) -> Sample {
    if a.nan() {
        a
    } else if a.order() < low.order() {
        low
    } else if a.order() > high.order() {
        high
    } else {
        a
    }
}

/// Largest 16-bit amplitude, to which the value one is scaled.
pub const FULL_SCALE: u64 = 32767;

/// Patterns below this are the smallest values, which have no implicit leading bit.
pub const HIDDEN: u32 = 0x0080_0000;

/// Numerator of a sample's absolute value, over `2^scale_exponent`.
pub open spec fn significand(a: Sample) -> nat {
    let fraction = a.magnitude_bits() % HIDDEN as int;
    if a.magnitude_bits() < HIDDEN {
        fraction as nat
    } else {
        (HIDDEN + fraction) as nat
    }
}

/// Binary exponent of the denominator of a sample's absolute value, for values up
/// to one.
pub open spec fn scale_exponent(a: Sample) -> nat {
    if a.magnitude_bits() < HIDDEN {
        149
    } else {
        (150 - a.magnitude_bits() / HIDDEN as int) as nat
    }
}

/// One past the largest significand of a binary32 value: it has 24 binary digits.
pub const DIGITS: u128 = 0x100_0000;

/// Absolute value of the 16-bit amplitude of a sample of at most one: the sample is
/// scaled to full scale, the product rounded to the binary32 values (24 binary
/// digits, ties to even), and that rounded to an integer (ties away from zero).
pub open spec fn amplitude(a: Sample) -> nat {
    let product = significand(a) * FULL_SCALE as nat;
    half_up(rounded(product, DIGITS as nat), pow2(scale_exponent(a)))
}

/// The 16-bit amplitude of a sample: clamped to `[-1, 1]`, scaled and rounded; 0 for
/// what is no number.
pub open spec fn quantized(a: Sample) -> int {
    let c = clamped(a, Sample { bits: (SIGN + ONE) as u32 }, Sample { bits: ONE });
    if a.nan() {
        0
    } else if c.bits >= SIGN {
        -amplitude(c)
    } else {
        amplitude(c) as int
    }
}

/// `2^exponent`.
fn power_of_two(exponent: u32) -> (power: u64)
    requires
        exponent <= 42,
    ensures
        power == pow2(exponent as nat),
        power >= 1,
{
    let mut power: u64 = 1;
    let mut i: u32 = 0;
    proof {
        lemma2_to64();
        lemma2_to64_rest();
    }
    while i < exponent
        invariant
            i <= exponent <= 42,
            power == pow2(i as nat),
            power >= 1,
        decreases exponent - i,
    {
        proof {
            lemma_pow2_unfold((i + 1) as nat);
            lemma_pow2_strictly_increases((i + 1) as nat, 43);
            lemma2_to64_rest();
        }
        power = power * 2;
        i = i + 1;
    }
    power
}

/// What the amplitude of a sample in `[0, 1]` can be.
proof fn lemma_amplitude_small(a: Sample)
    requires
        a.bits <= ONE,
    ensures
        rounded(significand(a) * FULL_SCALE as nat, DIGITS as nat) <= 0x100_0000_0000,
        amplitude(a) <= 32767,
        scale_exponent(a) > 42 ==> amplitude(a) == 0,
{
    let product = significand(a) * FULL_SCALE as nat;
    let exponent = scale_exponent(a);
    let near = rounded(product, DIGITS as nat);
    let unit = spacing(product, DIGITS as nat);
    spacing_is_small(product, DIGITS as nat);
    nearest_multiple_is_near(product, unit);
    lemma2_to64();
    lemma2_to64_rest();
    if exponent > 42 {
        lemma_pow2_strictly_increases(42, exponent);
        half_up_is_bounded(near, pow2(exponent), 0, near);
    } else {
        if exponent > 23 {
            lemma_pow2_strictly_increases(23, exponent);
        }
        if exponent > 24 {
            lemma_pow2_strictly_increases(24, exponent);
        }
        assert(significand(a) <= pow2(exponent));
        half_up_is_bounded(near, pow2(exponent), 32767, 0x1_0000);
    }
}

/// Every sample has an amplitude of at most 16 bits, and flipping its sign flips the
/// amplitude's.
pub proof fn quantized_is_symmetric(a: Sample)
    ensures
        -32767 <= quantized(a) <= 32767,
        a.bits < SIGN ==> quantized(Sample { bits: (a.bits + SIGN) as u32 }) == -quantized(a),
{
    let low = Sample { bits: (SIGN + ONE) as u32 };
    let high = Sample { bits: ONE };
    let c = clamped(a, low, high);
    if !a.nan() {
        lemma_amplitude_small(magnitude(c));
        assert(amplitude(magnitude(c)) == amplitude(c));
        if a.bits < SIGN {
            let b = Sample { bits: (a.bits + SIGN) as u32 };
            let d = clamped(b, low, high);
            assert(magnitude(d) == magnitude(c));
            assert(amplitude(d) == amplitude(c));
        }
    }
}

/// Scaling by the same power of two on both sides keeps an amplitude.
proof fn lemma_amplitude_scaled(p: nat, e: nat, k: nat)
    ensures
        half_up(rounded(p * pow2(k), DIGITS as nat), pow2(e + k)) == half_up(
            rounded(p, DIGITS as nat),
            pow2(e),
        ),
    decreases k,
{
    lemma2_to64();
    if k == 0 {
        assert(p * 1 == p);
    } else {
        let half = (k - 1) as nat;
        lemma_amplitude_scaled(p, e, half);
        lemma_pow2_unfold(k);
        lemma_pow2_unfold(e + k);
        lemma_pow2_pos(e + half);
        assert(p * (2 * pow2(half)) == 2 * (p * pow2(half))) by (nonlinear_arith);
        rounded_doubles(p * pow2(half), DIGITS as nat);
        let r = rounded(p * pow2(half), DIGITS as nat);
        half_up_keeps_order(r, r, pow2(e + half));
    }
}

/// What `a` stands for, on the scale of the larger `b`.
proof fn lemma_significands(a: Sample, b: Sample)
    requires
        a.bits <= b.bits <= ONE,
    ensures
        scale_exponent(b) <= scale_exponent(a),
        significand(a) <= significand(b) * pow2((scale_exponent(a) - scale_exponent(b)) as nat),
{
    let (i, j) = (a.bits / HIDDEN, b.bits / HIDDEN);
    let k = (scale_exponent(a) - scale_exponent(b)) as nat;
    let (s, t) = (significand(a), significand(b));
    assert(i <= j);
    lemma2_to64();
    if k == 0 {
        assert(s <= t);
        assert(t * 1 == t);
    } else {
        if k > 1 {
            lemma_pow2_strictly_increases(1, k);
        }
        assert(s < 2 * HIDDEN && t >= HIDDEN);
        assert(s <= t * pow2(k)) by (nonlinear_arith)
            requires
                s < 2 * HIDDEN,
                t >= HIDDEN,
                pow2(k) >= 2,
        ;
    }
}

proof fn lemma_amplitude_keeps_order(a: Sample, b: Sample)
    requires
        a.bits <= b.bits <= ONE,
    ensures
        amplitude(a) <= amplitude(b),
{
    let k = (scale_exponent(a) - scale_exponent(b)) as nat;
    let full = FULL_SCALE as nat;
    lemma_significands(a, b);
    let p = significand(a) * full;
    let q = significand(b) * full;
    let (s, t) = (significand(a), significand(b));
    let m = pow2(k);
    assert(s * full <= (t * full) * m) by (nonlinear_arith)
        requires
            s <= t * m,
    ;
    rounded_keeps_order(p, q * pow2(k), DIGITS as nat);
    lemma_pow2_pos(scale_exponent(a));
    half_up_keeps_order(
        rounded(p, DIGITS as nat),
        rounded(q * pow2(k), DIGITS as nat),
        pow2(scale_exponent(a)),
    );
    lemma_amplitude_scaled(q, scale_exponent(b), k);
}

/// Louder samples never get a smaller amplitude: quantizing keeps the order of samples.
pub proof fn quantized_keeps_order(a: Sample, b: Sample)
    requires
        !a.nan(),
        !b.nan(),
        a.order() <= b.order(),
    ensures
        quantized(a) <= quantized(b),
{
    let low = Sample { bits: (SIGN + ONE) as u32 };
    let high = Sample { bits: ONE };
    let c = clamped(a, low, high);
    let d = clamped(b, low, high);
    assert(c.order() <= d.order());
    assert(amplitude(magnitude(c)) == amplitude(c));
    assert(amplitude(magnitude(d)) == amplitude(d));
    if c.bits < SIGN && d.bits < SIGN {
        lemma_amplitude_keeps_order(c, d);
    } else if c.bits >= SIGN && d.bits >= SIGN {
        lemma_amplitude_keeps_order(magnitude(d), magnitude(c));
    } else if c.bits < SIGN {
        lemma_amplitude_keeps_order(c, magnitude(d));
        lemma_amplitude_keeps_order(magnitude(d), c);
        lemma_zero_amplitude();
    }
}

proof fn lemma_zero_amplitude()
    ensures
        amplitude(zero()) == 0,
{
    lemma_pow2_pos(149);
    assert(significand(zero()) == 0);
    assert(0 * FULL_SCALE as nat == 0);
    rounded_doubles(0, DIGITS as nat);
    half_up_is_bounded(0, pow2(149), 0, 0);
}

impl Sample {
    /// The 16-bit amplitude of the sample.
    pub fn quantize(self) -> (q: i16)
        ensures
            q == quantized(self),
            -32767 <= q <= 32767,
    {
        if self.is_nan() {
            return 0;
        }
        let c = self.clamp(Sample { bits: SIGN + ONE }, Sample { bits: ONE });
        let level: i16 = c.abs().scaled();
        if c.bits >= SIGN {
            -level
        } else {
            level
        }
    }

    /// The 16-bit amplitude of a sample in `[0, 1]`.
    fn scaled(self) -> (q: i16)
        requires
            self.bits <= ONE,
        ensures
            q == amplitude(self),
            0 <= q <= 32767,
    {
        let fraction: u64 = (self.bits % HIDDEN) as u64;
        let exponent: u32 = self.bits / HIDDEN;
        let numerator: u64 = if exponent == 0 { fraction } else { HIDDEN as u64 + fraction };
        let denominator: u32 = if exponent == 0 { 149 } else { 150 - exponent };
        let product: u64 = numerator * FULL_SCALE;
        let near: u64 = round_digits(product as u128, DIGITS) as u64;
        assert(near == rounded(product as nat, DIGITS as nat));
        proof {
            lemma_amplitude_small(self);
        }
        if denominator > 42 {
            return 0;
        }
        let scale: u64 = power_of_two(denominator);
        proof {
            lemma2_to64_rest();
            if denominator < 42 {
                lemma_pow2_strictly_increases(denominator as nat, 42);
            }
        }
        ((2 * near + scale) / (2 * scale)) as i16
    }
}

/// The frames of an interleaved buffer. A last sample without its partner
/// belongs to no frame.
pub open spec fn frames_of(interleaved: Seq<Sample>) -> Seq<Frame> {
    Seq::new(
        (interleaved.len() / 2) as nat,
        |i: int| Frame { l: interleaved[2 * i], r: interleaved[2 * i + 1] },
    )
}

/// Cutting an interleaved buffer between two frames cuts its frames there.
pub proof fn frames_of_concatenation(a: Seq<Sample>, b: Seq<Sample>)
    requires
        a.len() % 2 == 0,
    ensures
        frames_of(a + b) == frames_of(a) + frames_of(b),
{
    assert(frames_of(a + b) =~= frames_of(a) + frames_of(b));
}

/// A positive pattern stands for a number that grows with it, up to infinity, and the sign
/// bit turns it round.
pub proof fn samples_follow_their_bits(a: Sample)
    ensures
        a.bits < 0x8000_0000 ==> a.order() == a.bits && a.nan() == (a.bits > 0x7f80_0000),
        a.bits >= 0x8000_0000 ==> {
            let b = Sample { bits: (a.bits - 0x8000_0000) as u32 };
            a.order() == -b.order() && a.nan() == b.nan()
        },
        zero().bits == 0,
{
}

/// The minimum of two samples is one of them, and no other number among them is below it;
/// the maximum likewise.
pub proof fn minimum_and_maximum(a: Sample, b: Sample)
    ensures
        lesser(a, b) == a || lesser(a, b) == b,
        greater(a, b) == a || greater(a, b) == b,
        !a.nan() ==> !lesser(a, b).nan() && lesser(a, b).order() <= a.order(),
        !b.nan() ==> !lesser(a, b).nan() && lesser(a, b).order() <= b.order(),
        !a.nan() ==> !greater(a, b).nan() && greater(a, b).order() >= a.order(),
        !b.nan() ==> !greater(a, b).nan() && greater(a, b).order() >= b.order(),
{
}

/// The magnitude of a sample is the sample or its opposite, whichever is not negative.
pub proof fn magnitude_drops_the_sign(a: Sample)
    ensures
        a.bits < 0x8000_0000 ==> magnitude(a) == a,
        a.bits >= 0x8000_0000 ==> magnitude(a).bits == a.bits - 0x8000_0000,
        magnitude(a).order() >= 0,
        magnitude(a).order() == a.order() || magnitude(a).order() == -a.order(),
{
}

/// Clamping leaves a number that lies between the bounds as it is, and moves any other to
/// the bound that it passed.
pub proof fn clamping_keeps_what_fits(a: Sample, low: Sample, high: Sample)
    requires
        low.order() <= high.order(),
    ensures
        a.nan() ==> clamped(a, low, high) == a,
        low.order() <= a.order() <= high.order() ==> clamped(a, low, high) == a,
        !a.nan() && a.order() < low.order() ==> clamped(a, low, high) == low,
        !a.nan() && a.order() > high.order() ==> clamped(a, low, high) == high,
{
}

/// The frames of an interleaved buffer are its samples two by two, left before right.
pub proof fn frames_are_pairs_of_samples(interleaved: Seq<Sample>, i: int)
    ensures
        2 * frames_of(interleaved).len() <= interleaved.len() <= 2 * frames_of(interleaved).len() + 1,
        0 <= i < frames_of(interleaved).len() ==> frames_of(interleaved)[i].l == interleaved[2 * i]
            && frames_of(interleaved)[i].r == interleaved[2 * i + 1],
{
}

/// A positive sample of at most one is the number `s / 2^d`, with `s` the 24 binary digits
/// and `d` from its exponent bits. Its amplitude `q` is the integer nearest to the product
/// with 32767 as a binary32 value: that is, nearest to the product but for its last of 24
/// digits, less than a hundredth of a step. What is louder than one gets 32767, what is no
/// number gets 0, and so does what has no 24 digits.
pub proof fn amplitude_is_nearest(a: Sample)
    ensures
        a.nan() ==> quantized(a) == 0,
        !a.nan() && a.order() >= 0x3f80_0000 ==> quantized(a) == 32767,
        !a.nan() && a.order() <= -0x3f80_0000 ==> quantized(a) == -32767,
        a.bits < 0x80_0000 ==> quantized(a) == 0,
        0x80_0000 <= a.bits <= 0x3f80_0000 ==> {
            let s = (0x80_0000 + a.bits % 0x80_0000) as nat;
            let d = (150 - a.bits / 0x80_0000) as nat;
            let step = pow2(d);
            let product = s * 32767;
            let near = rounded(product, 0x100_0000);
            let q = quantized(a);
            &&& (2 * q - 1) * step <= 2 * near < (2 * q + 1) * step
            &&& product - 0x4000 <= near <= product + 0x4000
            &&& step >= 0x80_0000
        },
{
    let high = Sample { bits: ONE };
    lemma2_to64();
    lemma2_to64_rest();
    if !a.nan() && (a.order() >= 0x3f80_0000 || a.order() <= -0x3f80_0000) {
        lemma_amplitude_of_one();
        let low = Sample { bits: (SIGN + ONE) as u32 };
        assert(amplitude(magnitude(low)) == amplitude(low));
    }
    if a.bits < 0x80_0000 {
        lemma_amplitude_small(a);
    }
    if 0x80_0000 <= a.bits <= 0x3f80_0000 {
        let s = significand(a);
        let d = scale_exponent(a);
        let step = pow2(d);
        let product = s * FULL_SCALE as nat;
        let near = rounded(product, DIGITS as nat);
        let q = amplitude(a);
        lemma_pow2_pos(d);
        if d > 23 {
            lemma_pow2_strictly_increases(23, d);
        }
        half_up_is_nearest(near, step);
        assert((2 * q - 1) * step == 2 * (q * step) - step) by (nonlinear_arith);
        assert((2 * q + 1) * step == 2 * (q * step) + step) by (nonlinear_arith);
        let unit = spacing(product, DIGITS as nat);
        spacing_is_small(product, DIGITS as nat);
        nearest_multiple_is_near(product, unit);
        let k = spacing_leaves_the_digits(product, DIGITS as nat);
        if k > 15 {
            lemma_pow2_strictly_increases(15, k);
        }
        assert(product < 0x100_0000 * 32767);
        assert(unit <= 0x8000) by {
            if k > 15 {
                lemma_pow2_unfold(16);
                if k > 16 {
                    lemma_pow2_strictly_increases(16, k);
                }
                assert(0x100_0000 * pow2(k) <= 2 * product);
            } else if k < 15 {
                lemma_pow2_strictly_increases(k, 15);
            }
        }
    }
}

proof fn lemma_amplitude_of_one()
    ensures
        amplitude(Sample { bits: ONE }) == 32767,
{
    let one = Sample { bits: ONE };
    let product: nat = 0x80_0000 * 32767;
    lemma2_to64();
    assert(significand(one) == 0x80_0000 && scale_exponent(one) == 23);
    lemma_doubled_digits(32767, 23);
    assert(32767 * pow2(23) == product);
    half_up_is_nearest(product, 0x80_0000);
}

/// Doubling a number of few digits adds none.
proof fn lemma_doubled_digits(p: nat, k: nat)
    requires
        p < DIGITS,
    ensures
        rounded(p * pow2(k), DIGITS as nat) == p * pow2(k),
    decreases k,
{
    lemma2_to64();
    if k == 0 {
        few_digits_stay(p, DIGITS as nat);
        assert(p * 1 == p);
    } else {
        let half = (k - 1) as nat;
        lemma_doubled_digits(p, half);
        lemma_pow2_unfold(k);
        rounded_doubles(p * pow2(half), DIGITS as nat);
        assert(p * (2 * pow2(half)) == 2 * (p * pow2(half))) by (nonlinear_arith);
    }
}

} // verus!
