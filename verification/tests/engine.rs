use quicksample::engine::{
    CaptureAction, CaptureEvent, Engine, Playback, PlaybackAction, PlaybackEvent,
};
use quicksample::sample::Sample;

fn bits(samples: &[f32]) -> Vec<Sample> {
    samples.iter().map(|x| Sample::from_bits(x.to_bits())).collect()
}

/// `frames` frames, each with its own value.
fn ramp(frames: usize) -> Vec<Sample> {
    (0..2 * frames).map(|i| Sample::from_bits((i as f32 / 4096.0).to_bits())).collect()
}

fn recorded(samples: &[Sample]) -> Engine {
    let mut e = Engine::new();
    e.start_recording();
    e.capture_step(CaptureEvent::Read(samples.to_vec()));
    e.stop_recording();
    e
}

fn level(s: Sample) -> f32 {
    f32::from_bits(s.to_bits())
}

/// Runs the loop of a request on an output that takes everything, and returns what was
/// written, the playhead at each chunk, and the last action.
fn run(e: &mut Engine, job: &mut Playback) -> (Vec<Sample>, Vec<usize>, PlaybackAction) {
    let mut written = Vec::new();
    let mut heads = Vec::new();
    let mut action = e.playback_step(job, PlaybackEvent::Opened);
    loop {
        match action {
            PlaybackAction::Write { from, to } => {
                written.extend(job.chunk(from, to));
                heads.push(e.play_pos());
                action = e.playback_step(job, PlaybackEvent::Wrote);
            }
            PlaybackAction::Drain => {
                assert!(e.is_playing());
                action = e.playback_step(job, PlaybackEvent::Drained);
            }
            PlaybackAction::Flush | PlaybackAction::Stop => return (written, heads, action),
        }
    }
}

#[test]
fn a_new_engine_is_idle() {
    let mut e = Engine::new();
    assert_eq!(e.frames(), 0);
    assert!(!e.is_recording());
    assert!(!e.is_playing());
    assert_eq!(e.play_pos(), 0);
    assert_eq!(e.take_error(), None);
    assert!(e.status().idle());
    assert!(!e.status().can_save());
    assert_eq!(e.slice(0, 10), vec![]);
}

#[test]
fn takes_append() {
    let mut e = Engine::new();
    let (a, b) = (ramp(3), ramp(2));
    assert_eq!(e.capture_step(CaptureEvent::Opened), CaptureAction::Read);
    // Nothing is kept before recording starts, but the meter moves.
    assert_eq!(e.capture_step(CaptureEvent::Read(bits(&[0.5, -0.25]))), CaptureAction::Read);
    assert_eq!(e.frames(), 0);
    assert_eq!(level(e.input_levels().load()[0]), 0.5);
    assert_eq!(level(e.input_levels().load()[1]), 0.25);
    e.toggle_recording();
    e.capture_step(CaptureEvent::Read(a.clone()));
    e.toggle_recording();
    e.capture_step(CaptureEvent::Read(ramp(9)));
    e.start_recording();
    e.capture_step(CaptureEvent::Read(b.clone()));
    e.stop_recording();
    assert_eq!(e.frames(), 5);
    assert_eq!(e.take().frames(), 5);
    let mut both = a;
    both.extend(b);
    assert_eq!(e.slice(0, 99), both);
    e.clear();
    assert_eq!(e.frames(), 0);
    assert!(e.status().idle());
}

#[test]
fn the_capture_loop_waits_and_reopens() {
    let mut e = Engine::new();
    e.capture_step(CaptureEvent::Read(bits(&[0.5, 0.5])));
    let action = e.capture_step(CaptureEvent::ReadFailed("gone".to_string()));
    assert_eq!(action, CaptureAction::Reopen { millis: 500 });
    assert_eq!(level(e.input_levels().load()[0]), 0.5);
    assert_eq!(e.take_error(), Some("PulseAudio read failed: gone".to_string()));
    assert_eq!(e.take_error(), None);
    let action = e.capture_step(CaptureEvent::OpenFailed("refused".to_string()));
    assert_eq!(action, CaptureAction::Reopen { millis: 2000 });
    assert_eq!(level(e.input_levels().load()[0]), 0.0);
    assert_eq!(e.take_error(), Some("PulseAudio capture unavailable: refused".to_string()));
}

#[test]
fn a_clip_is_played_whole() {
    let samples = ramp(1500);
    let mut e = recorded(&samples);
    let mut job = e.play(100, 1300).unwrap();
    assert!(e.is_playing());
    assert_eq!(e.play_pos(), 100);
    let (written, heads, last) = run(&mut e, &mut job);
    assert_eq!(written, samples[200..2600].to_vec());
    assert_eq!(heads, vec![100, 580, 1060]);
    assert_eq!(last, PlaybackAction::Stop);
    assert!(!e.is_playing());
    assert_eq!(level(e.output_levels().load()[0]), 0.0);
}

#[test]
fn the_output_meter_follows_the_chunks() {
    let mut e = recorded(&bits(&[0.25, -0.75]));
    let mut job = e.play(0, 1).unwrap();
    assert_eq!(
        e.playback_step(&mut job, PlaybackEvent::Opened),
        PlaybackAction::Write { from: 0, to: 2 }
    );
    assert_eq!(level(e.meter_levels().load()[0]), 0.25);
    assert_eq!(level(e.meter_levels().load()[1]), 0.75);
    e.stop_playback();
    assert_eq!(level(e.output_levels().load()[1]), 0.0);
}

#[test]
fn an_empty_range_is_not_played() {
    let mut e = recorded(&ramp(4));
    assert!(e.play(4, 9).is_none());
    assert!(e.play(2, 2).is_none());
    assert!(e.play(3, 1).is_none());
    assert!(!e.is_playing());
    assert!(e.play(3, 99).is_some());
}

#[test]
fn a_stale_request_ends_without_a_trace() {
    let mut e = recorded(&ramp(2000));
    let mut first = e.play(0, 2000).unwrap();
    e.playback_step(&mut first, PlaybackEvent::Opened);
    let mut second = e.play(1000, 2000).unwrap();
    let head = e.play_pos();
    assert_eq!(e.playback_step(&mut first, PlaybackEvent::Wrote), PlaybackAction::Flush);
    assert!(e.is_playing());
    assert_eq!(e.play_pos(), head);
    // Neither draining nor failing turns the newer playback off.
    assert_eq!(e.playback_step(&mut first, PlaybackEvent::Drained), PlaybackAction::Stop);
    let failed = PlaybackEvent::WriteFailed("broken".to_string());
    assert_eq!(e.playback_step(&mut first, failed), PlaybackAction::Stop);
    assert!(e.is_playing());
    assert_eq!(e.take_error(), Some("PulseAudio write failed: broken".to_string()));
    // Recording stops it.
    e.start_recording();
    assert!(!e.is_playing());
    assert_eq!(e.playback_step(&mut second, PlaybackEvent::Opened), PlaybackAction::Flush);
}

#[test]
fn failures_of_the_current_request() {
    let mut e = recorded(&ramp(2000));
    let mut job = e.play(0, 2000).unwrap();
    let failed = PlaybackEvent::OpenFailed("refused".to_string());
    assert_eq!(e.playback_step(&mut job, failed), PlaybackAction::Stop);
    assert!(!e.is_playing());
    assert_eq!(e.take_error(), Some("PulseAudio playback unavailable: refused".to_string()));
    let mut job = e.play(0, 2000).unwrap();
    e.playback_step(&mut job, PlaybackEvent::Opened);
    let failed = PlaybackEvent::WriteFailed("broken".to_string());
    assert_eq!(e.playback_step(&mut job, failed), PlaybackAction::Drain);
    assert!(e.is_playing());
    assert_eq!(e.playback_step(&mut job, PlaybackEvent::Drained), PlaybackAction::Stop);
    assert!(!e.is_playing());
}
