use quicksample::clock::fmt_time;

fn by_floats(frames: usize) -> String {
    let secs = frames as f64 / 48_000f64;
    format!("{}:{:06.3}", (secs / 60.0) as u64, secs % 60.0)
}

#[test]
fn times_agree_with_floats() {
    for frames in 0..60_000 {
        assert_eq!(fmt_time(frames), by_floats(frames), "{frames}");
    }
    // Half thousandths, where rounding is decided by the binary value.
    for k in 0..40_000usize {
        let frames = 24 + 48 * (k * 1009);
        assert_eq!(fmt_time(frames), by_floats(frames), "{frames}");
    }
    // Around whole minutes.
    for minute in [1usize, 2, 3, 7, 59, 60, 61, 1000, 65_536, 1_000_000] {
        for off in 0..100 {
            for frames in [minute * 2_880_000 - off, minute * 2_880_000 + off] {
                assert_eq!(fmt_time(frames), by_floats(frames), "{frames}");
            }
        }
    }
    // Powers of two and their neighbours, up to the largest number of frames.
    for e in 1..64 {
        for frames in [(1usize << e) - 1, 1 << e, (1 << e) + 1, usize::MAX >> e, usize::MAX - e] {
            assert_eq!(fmt_time(frames), by_floats(frames), "{frames}");
        }
    }
    assert_eq!(fmt_time(usize::MAX), by_floats(usize::MAX));
}

#[test]
fn time_exact_values() {
    assert_eq!(fmt_time(0), "0:00.000");
    assert_eq!(fmt_time(1), "0:00.000");
    assert_eq!(fmt_time(24), "0:00.001");
    assert_eq!(fmt_time(48_000), "0:01.000");
    assert_eq!(fmt_time(72_024), "0:01.500");
    assert_eq!(fmt_time(2_879_999), "0:60.000");
    assert_eq!(fmt_time(2_880_000), "1:00.000");
    assert_eq!(fmt_time(48_000 * 3725), "62:05.000");
}
