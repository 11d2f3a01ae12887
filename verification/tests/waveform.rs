use quicksample::audio::Recording;
use quicksample::peaks::Column;
use quicksample::sample::Sample;
use quicksample::view::Real;
use quicksample::waveform::{
    channel_path, channel_range, column_peaks, columns_shown, Channel, Span,
};

fn bits(samples: &[f32]) -> Vec<Sample> {
    samples.iter().map(|x| Sample::from_bits(x.to_bits())).collect()
}

fn rec(samples: &[f32]) -> Recording {
    let mut r = Recording::default();
    r.append(&bits(samples));
    r
}

/// The frames under each of `columns` columns of a view from `start` over `len` frames.
fn spans(start: f64, len: f64, columns: usize) -> Vec<(usize, usize)> {
    let per_col = len / columns as f64;
    (0..columns)
        .map(|c| {
            let a = (start + c as f64 * per_col).floor().max(0.0) as usize;
            let b = (start + (c + 1) as f64 * per_col).ceil().max(0.0) as usize;
            (a, b)
        })
        .collect()
}

fn columns(r: &Recording, start: f64, len: f64, columns: usize) -> Vec<[f32; 4]> {
    column_peaks(r, Real::from_bits(len.to_bits()), &spans(start, len, columns))
        .iter()
        .map(|c| [c.l_min, c.l_max, c.r_min, c.r_max].map(|s| f32::from_bits(s.to_bits())))
        .collect()
}

#[test]
fn peaks_cover_each_column() {
    // 4 frames: L = 0.1, -0.5, 0.9, 0.0 ; R = 0.2, 0.3, -0.7, 0.4
    let s = [0.1, 0.2, -0.5, 0.3, 0.9, -0.7, 0.0, 0.4];
    let cols = columns(&rec(&s), 0.0, 4.0, 2);
    assert_eq!(cols, vec![[-0.5, 0.1, 0.2, 0.3], [0.0, 0.9, -0.7, 0.4]]);
}

#[test]
fn columns_past_end_are_flat() {
    let s = [0.5, 0.5];
    let cols = columns(&rec(&s), 0.0, 4.0, 4);
    assert_eq!(cols[0], [0.5, 0.5, 0.5, 0.5]);
    assert_eq!(cols[3], [0.0; 4]);
}

#[test]
fn empty_input_is_flat() {
    let cols = columns(&rec(&[]), 0.0, 100.0, 3);
    assert_eq!(cols, vec![[0.0; 4]; 3]);
}

#[test]
fn a_view_of_no_length_has_no_columns() {
    let r = rec(&[0.5, 0.5]);
    for (len, shown) in [(0.0, 0), (-0.0, 0), (-3.5, 0), (f64::NEG_INFINITY, 0), (5e-324, 3), (4.0, 3)] {
        let bits = Real::from_bits(len.to_bits());
        assert_eq!(columns(&r, 0.0, len, 3).len(), shown, "{len}");
        assert_eq!(columns_shown(bits, 3), shown, "{len}");
        assert_eq!(columns_shown(bits, 0), 0);
    }
    assert_eq!(columns_shown(Real::from_bits(f64::NAN.to_bits()), 3), 3);
}

#[test]
fn a_narrow_column_takes_in_one_frame() {
    let r = rec(&[0.25, -0.25, 0.75, -0.75]);
    let len = Real::from_bits(2f64.to_bits());
    let cols = column_peaks(&r, len, &vec![(1, 1), (1, 0), (usize::MAX, 0), (0, usize::MAX)]);
    assert_eq!(cols[0].l_max.to_bits(), 0.75f32.to_bits());
    assert_eq!(cols[1], cols[0]);
    assert_eq!(cols[2].l_max.to_bits(), 0);
    assert_eq!(cols[3].r_min.to_bits(), (-0.75f32).to_bits());
    assert_eq!(cols[3].r_max.to_bits(), (-0.25f32).to_bits());
}

fn col(c: [f32; 4]) -> Column {
    let s = bits(&c);
    Column { l_min: s[0], l_max: s[1], r_min: s[2], r_max: s[3] }
}

/// The path of a channel centered at `cy` with half-height `amp`.
fn path(cols: &[Column], channel: Channel, cy: f32, amp: f32) -> String {
    let spans: Vec<Span> = cols
        .iter()
        .map(|c| {
            let (lo, hi) = channel_range(c, channel);
            let (lo, hi) = (f32::from_bits(lo.to_bits()), f32::from_bits(hi.to_bits()));
            let y_top = cy - hi * amp;
            let y_bottom = (cy - lo * amp).max(y_top + 1.0);
            Span { top: format!("{y_top:.1}"), bottom: format!("{y_bottom:.1}") }
        })
        .collect();
    channel_path(&spans)
}

#[test]
fn path_outlines_each_column() {
    let cols = vec![col([0.0; 4]), col([-1.0, 1.0, 0.0, 0.0])];
    let d = path(&cols, Channel::Left, 10.0, 10.0);
    assert_eq!(d, "M0 10.0H1V0.0H2V20.0H1V11.0H0Z");
    assert_eq!(path(&[], Channel::Left, 10.0, 10.0), "");
}

#[test]
fn path_of_many_columns_and_the_right_channel() {
    let cols = vec![col([0.0, 0.0, -7.0, 0.5]); 11];
    let d = path(&cols, Channel::Right, 30.0, 10.0);
    assert!(d.starts_with("M0 25.0H1V25.0H2V25.0H3"));
    assert!(d.contains("V25.0H11V40.0H10V40.0H9"));
    assert!(d.ends_with("V40.0H1V40.0H0Z"));
}
