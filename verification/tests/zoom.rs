use quicksample::position::{frames_position, room_beside};
use quicksample::view::Real;
use quicksample::zoom::{whole_length, window_for};

fn f(x: f64) -> Real {
    Real::from_bits(x.to_bits())
}

fn value(x: Real) -> f64 {
    f64::from_bits(x.to_bits())
}

/// Numbers of all sizes.
fn numbers() -> Vec<u64> {
    let mut x: u64 = 0x9e37_79b9_7f4a_7c15;
    let mut all = vec![1, 2, 3, 63, 64, 65, (1 << 53) - 1, 1 << 53, (1 << 53) + 1, u64::MAX];
    for shift in 0..63 {
        for _ in 0..40 {
            x ^= x << 13;
            x ^= x >> 7;
            x ^= x << 17;
            all.push((x >> shift).max(1));
        }
    }
    all
}

#[test]
fn numbers_of_frames_are_positions() {
    for n in numbers() {
        assert_eq!(value(frames_position(n as usize)), n as f64, "{n}");
        assert_eq!(value(whole_length(n as usize)), n as f64, "{n}");
    }
    assert_eq!(value(whole_length(0)), 1.0);
}

#[test]
fn room_is_what_subtraction_gives() {
    let all = numbers();
    for (i, n) in all.iter().enumerate() {
        let full = *n as f64;
        for m in [all[(i + 7) % all.len()], all[(i * 31 + 11) % all.len()]] {
            let len = (m as f64 * 1.25) / 3.7;
            if 1.0 <= len && len < full {
                let room = value(room_beside(f(full), f(len)));
                assert_eq!(room.to_bits(), (full - len).to_bits(), "{full} - {len}");
            }
        }
        let len = f64::from_bits(full.to_bits() - 1);
        if 1.0 <= len {
            assert_eq!(value(room_beside(f(full), f(len))), full - len);
        }
    }
}

/// What the window is by floating-point arithmetic.
fn by_floats(frames: usize, start: f64, len: f64) -> Option<(f64, f64)> {
    let full = frames.max(1) as f64;
    let len = len.clamp(64f64.min(full), full);
    if len >= full {
        None
    } else {
        Some((start.clamp(0.0, full - len), len))
    }
}

#[test]
fn windows_agree_with_floating_point() {
    let lengths = [-1.0, 0.0, 0.3, 63.9, 64.0, 64.1, 1234.56789, 1e6 / 3.0, 1e19, f64::INFINITY];
    let starts = [f64::NEG_INFINITY, -5.5, -0.0, 0.0, 1e-300, 17.25, 935.9999, 1e6, 1e18, f64::INFINITY];
    for frames in [0usize, 1, 40, 64, 65, 1000, 480_001, 172_800_000, usize::MAX] {
        for len in lengths {
            for start in starts {
                let window = window_for(frames, f(start), f(len));
                let window = window.map(|w| (value(w.start).to_bits(), value(w.len).to_bits()));
                let expected = by_floats(frames, start, len);
                let expected = expected.map(|(s, l)| (s.to_bits(), l.to_bits()));
                assert_eq!(window, expected, "{frames} {start} {len}");
            }
        }
    }
}
