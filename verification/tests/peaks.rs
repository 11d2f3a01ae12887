use quicksample::peaks::{block_size, Column, PeakPyramid};
use quicksample::sample::Sample;

const CHANNELS: usize = 2;

fn bits(samples: &[f32]) -> Vec<Sample> {
    samples.iter().map(|x| Sample::from_bits(x.to_bits())).collect()
}

fn column(col: Column) -> [f32; 4] {
    [col.l_min, col.l_max, col.r_min, col.r_max].map(|s| f32::from_bits(s.to_bits()))
}

fn merge_frame(col: &mut [f32; 4], frame: &[f32]) {
    col[0] = col[0].min(frame[0]);
    col[1] = col[1].max(frame[0]);
    col[2] = col[2].min(frame[1]);
    col[3] = col[3].max(frame[1]);
}

fn brute(samples: &[f32], a: usize, b: usize) -> [f32; 4] {
    let mut col = [f32::MAX, f32::MIN, f32::MAX, f32::MIN];
    for f in samples[a * CHANNELS..b * CHANNELS].chunks(CHANNELS) {
        merge_frame(&mut col, f);
    }
    col
}

fn noise(n: usize) -> Vec<f32> {
    // Deterministic pseudo-random samples in [-1, 1].
    let mut x: u32 = 0x9e37_79b9;
    (0..n * CHANNELS)
        .map(|_| {
            x ^= x << 13;
            x ^= x >> 17;
            x ^= x << 5;
            (x as f32 / u32::MAX as f32) * 2.0 - 1.0
        })
        .collect()
}

#[test]
fn matches_brute_force_at_every_level() {
    let samples = noise(70_001);
    let held = bits(&samples);
    let mut p = PeakPyramid::default();
    // Push in odd-sized chunks so blocks straddle pushes.
    for chunk in held.chunks(7 * 2 * 53) {
        p.push(chunk);
    }
    assert_eq!(p.blocks(0), 70_001usize.div_ceil(16));
    assert_eq!(p.blocks(1), 70_001 / 256);
    assert_eq!(p.blocks(2), 70_001 / 4096);
    assert_eq!(p.blocks(3), 1);
    for &(a, b) in &[
        (0, 70_001),
        (0, 1),
        (5, 21),
        (16, 32),
        (4095, 65_537),
        (65_536, 70_001),
        (1234, 1234),
    ] {
        assert_eq!(
            column(p.query(&held, a, b)),
            brute(&samples, a, b),
            "range {a}..{b}"
        );
    }
}

#[test]
fn clear_resets() {
    let samples = noise(1000);
    let held = bits(&samples);
    let mut p = PeakPyramid::default();
    p.push(&held);
    p.clear();
    assert_eq!(p.frames(), 0);
    p.push(&held[..2 * 10]);
    assert_eq!(column(p.query(&held, 0, 10)), brute(&samples, 0, 10));
}

#[test]
fn a_query_may_end_with_the_unfinished_block() {
    let samples = noise(20);
    let held = bits(&samples);
    let mut p = PeakPyramid::default();
    p.push(&held);
    assert_eq!(column(p.query(&held, 3, 32)), brute(&samples, 3, 20));
    assert_eq!(column(p.query(&held, 16, 32)), brute(&samples, 16, 20));
    // Nothing is read for an empty or reversed range.
    assert_eq!(column(p.query(&[], 9, 9)), brute(&samples, 0, 0));
    assert_eq!(column(p.query(&[], 9, 2)), brute(&samples, 0, 0));
}

#[test]
fn odd_samples_and_oddities_are_ignored() {
    let mut p = PeakPyramid::default();
    let samples = [0.25, f32::NAN, -0.5, f32::INFINITY, f32::NAN, f32::NEG_INFINITY, 9.0];
    p.push(&bits(&samples));
    assert_eq!(p.frames(), 3);
    let col = column(p.query(&bits(&samples), 0, 3));
    assert_eq!(col, [-0.5, 0.25, f32::NEG_INFINITY, f32::INFINITY]);
    // Of infinities alone the ends stay at the largest finite values.
    let mut q = PeakPyramid::default();
    q.push(&bits(&[f32::INFINITY, f32::NEG_INFINITY]));
    let col = column(q.query(&bits(&[f32::INFINITY, f32::NEG_INFINITY]), 0, 1));
    assert_eq!(col, [f32::MAX, f32::INFINITY, f32::NEG_INFINITY, f32::MIN]);
}

#[test]
fn every_short_range_of_a_pyramid() {
    let samples = noise(600);
    let held = bits(&samples);
    let mut p = PeakPyramid::default();
    p.push(&held[..2 * 255]);
    p.push(&held[2 * 255..]);
    for a in 0..600 {
        for b in (a..=600).step_by(7) {
            assert_eq!(column(p.query(&held, a, b)), brute(&samples, a, b), "{a}..{b}");
        }
    }
}

#[test]
fn block_sizes() {
    assert_eq!(block_size(0), 16);
    assert_eq!(block_size(1), 256);
    assert_eq!(block_size(2), 4096);
    assert_eq!(block_size(3), 65_536);
}

#[test]
fn columns_merge() {
    let one = Sample::from_bits(1f32.to_bits());
    let two = Sample::from_bits(2f32.to_bits());
    let mut col = Column::empty();
    assert_eq!(column(col), [f32::MAX, f32::MIN, f32::MAX, f32::MIN]);
    col.merge_frame(quicksample::sample::Frame { l: one, r: two });
    let mut other = Column::empty();
    other.merge_frame(quicksample::sample::Frame { l: two, r: one });
    col.merge(&other);
    assert_eq!(column(col), [1.0, 2.0, 1.0, 2.0]);
}

#[test]
fn only_the_edges_of_the_buffer_matter() {
    let samples = noise(70_001);
    let mut p = PeakPyramid::default();
    p.push(&bits(&samples));
    for (a, b) in [(0usize, 70_001usize), (5, 21), (5, 60), (16, 32), (4095, 65_537), (33, 69_999)] {
        let (first, last) = (a.div_ceil(16) * 16, b / 16 * 16);
        let mut other = samples.clone();
        for i in 0..70_001 {
            if i < a || i >= b || (first <= i && i < last) {
                other[2 * i] = 9.0;
                other[2 * i + 1] = -9.0;
            }
        }
        assert_eq!(p.query(&bits(&other), a, b), p.query(&bits(&samples), a, b), "{a}..{b}");
        assert_eq!(column(p.query(&bits(&other), a, b)), brute(&samples, a, b));
        assert_eq!(column(p.query_counted(&bits(&other), a, b).0), brute(&samples, a, b));
    }
    // Whole blocks need no buffer at all.
    assert_eq!(column(p.query(&[], 16, 4096)), brute(&samples, 16, 4096));
}
