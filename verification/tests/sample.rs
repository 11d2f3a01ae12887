use quicksample::sample::Sample;

fn s(x: f32) -> Sample {
    Sample::from_bits(x.to_bits())
}

/// Bit patterns of every exponent and sign, with assorted fractions.
fn patterns() -> Vec<u32> {
    let fractions = [0u32, 1, 2, 0x1234, 0x3f_ffff, 0x40_0000, 0x55_5555, 0x7f_fffe, 0x7f_ffff];
    let mut all = Vec::new();
    for exponent in 0..256u32 {
        for fraction in fractions {
            all.push(exponent << 23 | fraction);
            all.push(1 << 31 | exponent << 23 | fraction);
        }
    }
    all
}

fn same(a: f32, b: f32) -> bool {
    a == b || (a.is_nan() && b.is_nan())
}

#[test]
fn min_max_and_order_agree_with_floats() {
    let all = patterns();
    for (i, &a) in all.iter().enumerate() {
        for &b in all.iter().skip(i % 7).step_by(7) {
            let (x, y) = (f32::from_bits(a), f32::from_bits(b));
            let (p, q) = (Sample::from_bits(a), Sample::from_bits(b));
            assert!(same(f32::from_bits(p.min(q).to_bits()), x.min(y)), "min {x} {y}");
            assert!(same(f32::from_bits(p.max(q).to_bits()), x.max(y)), "max {x} {y}");
            assert_eq!(p.below(q), x < y, "{x} < {y}");
        }
    }
}

#[test]
fn abs_nan_and_clamp_agree_with_floats() {
    for bits in patterns() {
        let x = f32::from_bits(bits);
        let p = Sample::from_bits(bits);
        assert_eq!(p.abs().to_bits(), x.abs().to_bits());
        assert_eq!(p.is_nan(), x.is_nan());
        assert!(same(f32::from_bits(p.clamp(s(-1.0), s(1.0)).to_bits()), x.clamp(-1.0, 1.0)));
        assert!(same(f32::from_bits(p.clamp(s(-60.0), s(0.0)).to_bits()), x.clamp(-60.0, 0.0)));
    }
}

fn by_floats(x: f32) -> i16 {
    (x.clamp(-1.0, 1.0) * i16::MAX as f32).round() as i16
}

#[test]
fn quantize_agrees_with_floats() {
    for bits in patterns() {
        let x = f32::from_bits(bits);
        assert_eq!(Sample::from_bits(bits).quantize(), by_floats(x), "{x}");
    }
    // All magnitudes near each half step, and a walk through [0, 1].
    for k in 0..32767u32 {
        let middle = ((k as f32 + 0.5) / 32767.0).to_bits();
        for bits in middle - 4..middle + 5 {
            let x = f32::from_bits(bits);
            assert_eq!(s(x).quantize(), by_floats(x), "{x}");
            assert_eq!(s(-x).quantize(), by_floats(-x), "{x}");
        }
    }
    let mut bits: u32 = 0x3000_0000;
    while bits < 0x3f80_0010 {
        let x = f32::from_bits(bits);
        assert_eq!(s(x).quantize(), by_floats(x), "{x}");
        bits += 997;
    }
}

#[test]
fn quantize_exact_values() {
    assert_eq!(s(0.0).quantize(), 0);
    assert_eq!(s(0.5).quantize(), 16384);
    assert_eq!(s(-0.5).quantize(), -16384);
    assert_eq!(s(1.0).quantize(), i16::MAX);
    assert_eq!(s(-7.5).quantize(), -i16::MAX);
    assert_eq!(s(f32::NAN).quantize(), 0);
    assert_eq!(s(f32::INFINITY).quantize(), i16::MAX);
}

#[test]
fn quantizing_keeps_order() {
    let mut last = i16::MIN;
    for i in -40_000i32..=40_000 {
        let q = Sample::from_bits((i as f32 / 32_000.0).to_bits()).quantize();
        assert!(last <= q, "{i}");
        last = q;
    }
    assert_eq!(last, i16::MAX);
}
