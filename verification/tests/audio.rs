use quicksample::audio::{as_bytes, frames_to_bytes, from_bytes, peaks, Levels, Recording};
use quicksample::sample::Sample;

fn bits(samples: &[f32]) -> Vec<Sample> {
    samples.iter().map(|x| Sample::from_bits(x.to_bits())).collect()
}

#[test]
fn sizes_in_bytes() {
    assert_eq!(frames_to_bytes(480), 3840);
    assert_eq!(frames_to_bytes(0), 0);
    // The counter has 32 bits.
    assert_eq!(frames_to_bytes(536_870_912), 0);
    assert_eq!(frames_to_bytes(536_870_913), 8);
}

#[test]
fn streams_are_little_endian_floats() {
    let samples = [0.0f32, -0.0, 1.0, -0.3, f32::MAX, f32::NAN, 1e-40];
    let mut expected = Vec::new();
    for x in samples {
        expected.extend_from_slice(&x.to_le_bytes());
    }
    let held = bits(&samples);
    assert_eq!(as_bytes(&held), expected);
    assert_eq!(from_bytes(&expected), held);
    // A sample that is cut off is none.
    assert_eq!(from_bytes(&expected[..11]), held[..2].to_vec());
}

#[test]
fn peaks_are_the_largest_magnitudes() {
    let (l, r) = peaks(&bits(&[0.1, -0.9, -0.5, 0.2, f32::NAN, 0.3, 7.0]));
    assert_eq!(f32::from_bits(l.to_bits()), 0.5);
    assert_eq!(f32::from_bits(r.to_bits()), 0.9);
    let (l, r) = peaks(&[]);
    assert_eq!((l.to_bits(), r.to_bits()), (0, 0));
}

#[test]
fn levels_load_what_was_stored() {
    let mut levels = Levels::default();
    assert_eq!(levels.load().map(|s| s.to_bits()), [0, 0]);
    let s = bits(&[0.5, 0.25]);
    levels.store(s[0], s[1]);
    assert_eq!(levels.load().to_vec(), s);
}

#[test]
fn recordings_append_slice_and_clear() {
    let mut r = Recording::default();
    let a = bits(&[0.1, 0.2, 0.3, 0.4]);
    let b = bits(&[0.5, 0.6]);
    r.append(&a);
    r.append(&b);
    assert_eq!(r.frames(), 3);
    assert_eq!(r.peaks().frames(), 3);
    assert_eq!(r.samples().len(), 6);
    assert_eq!(r.slice(1, 3), bits(&[0.3, 0.4, 0.5, 0.6]));
    assert_eq!(r.slice(2, 99), b);
    assert_eq!(r.slice(9, 99), vec![]);
    assert_eq!(r.slice(2, 1), vec![]);
    r.clear();
    assert_eq!(r.frames(), 0);
    assert_eq!(r.slice(0, 9), vec![]);
}
