use quicksample::audio::Levels;
use quicksample::engine::{CaptureEvent, Engine};
use quicksample::meter::{reading, settle};
use quicksample::sample::Sample;
use quicksample::selection::{normalized, Button};
use quicksample::session::{save_target, SaveStep, SaveTarget, Session};
use quicksample::view::{is_drag, placed, visible_len, wheel, Real, Zoom};

fn s(x: f32) -> Sample {
    Sample::from_bits(x.to_bits())
}

fn f(x: f64) -> Real {
    Real::from_bits(x.to_bits())
}

fn value(x: Real) -> f64 {
    f64::from_bits(x.to_bits())
}

/// An engine with `frames` recorded frames, and a session that has seen it.
fn with_frames(frames: usize) -> (Engine, Session) {
    let mut e = Engine::new();
    e.start_recording();
    e.capture_step(CaptureEvent::Read(vec![s(0.5); 2 * frames]));
    e.stop_recording();
    let mut session = Session::new(None);
    session.poll(&mut e, Levels::default());
    (e, session)
}

/// Presses the primary button at `from`, moves to `to` and lets go.
fn drag(session: &mut Session, e: &mut Engine, from: usize, to: usize, moved: bool) -> bool {
    session.press(Button::Primary, from);
    session.move_to(true, to, moved);
    session.release(Button::Primary, moved, e).is_some()
}

#[test]
fn regions_are_ordered() {
    assert_eq!(normalized(3, 9), Some((3, 9)));
    assert_eq!(normalized(9, 3), Some((3, 9)));
    assert_eq!(normalized(4, 4), None);
}

#[test]
fn a_drag_selects_and_a_click_plays() {
    let (mut e, mut session) = with_frames(100);
    assert!(!drag(&mut session, &mut e, 70, 30, true));
    assert_eq!(session.selection().region, Some((30, 70)));
    assert_eq!(session.selection().cursor, 0);
    assert!(drag(&mut session, &mut e, 40, 40, false));
    assert!(e.is_playing());
    assert_eq!(e.play_pos(), 40);
    assert_eq!(session.selection().cursor, 40);
    assert_eq!(session.selection().region, Some((30, 70)));
    // While recording a click only sets the cursor.
    e.start_recording();
    session.poll(&mut e, Levels::default());
    assert!(!drag(&mut session, &mut e, 50, 50, false));
    assert_eq!(session.selection().cursor, 50);
    assert!(!e.is_playing());
}

#[test]
fn a_drag_is_kept_inside_the_recording_and_may_end_outside() {
    let (mut e, mut session) = with_frames(100);
    session.press(Button::Primary, 90);
    session.move_to(true, 5000, true);
    assert_eq!(session.selection().shown_region(), Some((90, 100)));
    session.leave(true);
    assert_eq!(session.selection().region, Some((90, 100)));
    assert_eq!(session.selection().drag, None);
    // Let go elsewhere: no click.
    session.press(Button::Primary, 10);
    session.move_to(false, 11, false);
    assert_eq!(session.selection().drag, None);
    assert_eq!(session.selection().cursor, 0);
    // A drag that goes nowhere still shows the old region.
    session.press(Button::Primary, 10);
    assert_eq!(session.selection().shown_region(), Some((90, 100)));
    assert!(session.release(Button::Secondary, false, &mut e).is_none());
    assert_eq!(session.selection().drag, Some((10, 10)));
}

#[test]
fn the_secondary_button_moves_the_far_edge() {
    let (mut e, mut session) = with_frames(100);
    drag(&mut session, &mut e, 20, 20, false);
    session.press(Button::Secondary, 60);
    assert_eq!(session.selection().region, Some((20, 60)));
    session.press(Button::Secondary, 80);
    assert_eq!(session.selection().region, Some((20, 80)));
    session.press(Button::Other, 90);
    assert_eq!(session.selection().region, Some((20, 80)));
    session.press(Button::Secondary, 20);
    assert_eq!(session.selection().region, None);
}

#[test]
fn space_plays_and_stops() {
    let (mut e, mut session) = with_frames(100);
    drag(&mut session, &mut e, 20, 30, true);
    let job = session.space(&mut e).unwrap();
    assert_eq!(e.play_pos(), 20);
    assert_eq!(job.chunk(0, 20).len(), 20);
    assert!(session.space(&mut e).is_none());
    assert!(!e.is_playing());
    session.escape(&mut e);
    assert_eq!(session.selection().region, None);
    session.space(&mut e).unwrap();
    assert_eq!(e.play_pos(), 0);
    e.start_recording();
    assert!(session.space(&mut e).is_none());
    assert!(e.is_recording());
    let mut empty = Engine::new();
    assert!(session.space(&mut empty).is_none());
}

#[test]
fn escape_stops_before_it_clears() {
    let (mut e, mut session) = with_frames(100);
    drag(&mut session, &mut e, 20, 30, true);
    session.space(&mut e);
    session.escape(&mut e);
    assert!(!e.is_playing());
    assert_eq!(session.selection().region, Some((20, 30)));
    session.escape(&mut e);
    assert_eq!(session.selection().region, None);
}

#[test]
fn clear_drops_everything() {
    let (mut e, mut session) = with_frames(100);
    drag(&mut session, &mut e, 20, 30, true);
    session.set_view(f(1.0), f(70.0));
    assert_eq!(session.zoom().map(|w| (value(w.start), value(w.len))), Some((1.0, 70.0)));
    session.save_failed(&"disk full".to_string());
    assert_eq!(session.status_text(), "Save failed: disk full");
    assert!(session.is_error());
    session.clear(&mut e);
    session.poll(&mut e, Levels::default());
    assert_eq!(e.frames(), 0);
    assert_eq!(session.selection().region, None);
    assert!(session.zoom().is_none());
    assert!(!session.is_error());
    assert_eq!(
        session.status_text(),
        "Pick the input source in pavucontrol; press Record to begin."
    );
}

#[test]
fn the_status_bar_says_what_save_exports() {
    let (mut e, mut session) = with_frames(72_000);
    assert_eq!(session.status_text(), "No selection — Save exports the whole recording");
    assert_eq!(session.export(&e, 72_000).len(), 144_000);
    drag(&mut session, &mut e, 10, 48_010, true);
    assert_eq!(session.status_text(), "Selection: 0:01.000 — Save exports the selection");
    assert_eq!(session.export(&e, 72_000).len(), 96_000);
}

#[test]
fn saving_asks_for_what_it_needs() {
    let (e, mut session) = with_frames(10);
    assert_eq!(session.save(&Engine::new(), false), SaveStep::Nothing);
    assert_eq!(session.save(&Engine::new(), true), SaveStep::Nothing);
    assert_eq!(session.save(&e, false), SaveStep::AskFolder);
    assert_eq!(session.save(&e, true), SaveStep::AskFile { start: None });
    session.saved(&b"/tmp/sample-001.wav".to_vec(), &"/tmp/sample-001.wav".to_string());
    assert_eq!(session.status_text(), "Saved /tmp/sample-001.wav");
    assert!(!session.is_error());
    assert_eq!(session.save(&e, false), SaveStep::UseFolder { folder: b"/tmp".to_vec() });
    assert_eq!(session.save(&e, true), SaveStep::AskFile { start: Some(b"/tmp".to_vec()) });
    let seeded = Session::new(Some(b"/some/folder".to_vec()));
    let step = SaveStep::UseFolder { folder: b"/some/folder".to_vec() };
    assert_eq!(seeded.save(&e, false), step);
}

#[test]
fn save_as_writes_the_chosen_file_and_remembers_its_folder() {
    let (e, mut session) = with_frames(10);
    let step = session.save(&e, true);
    let path = match save_target(step, Some(b"/music//takes/kick.flac".to_vec())) {
        SaveTarget::File { path } => path,
        other => panic!("{other:?}"),
    };
    assert_eq!(path, b"/music//takes/kick.wav".to_vec());
    session.saved(&path, &"kick".to_string());
    assert_eq!(session.save(&e, true), SaveStep::AskFile { start: Some(b"/music//takes".to_vec()) });
    assert_eq!(session.save(&e, false), SaveStep::UseFolder { folder: b"/music//takes".to_vec() });
    session.saved(&b"/kick.wav".to_vec(), &"kick".to_string());
    assert_eq!(session.save(&e, false), SaveStep::UseFolder { folder: b"/".to_vec() });
    session.saved(&b"kick.wav".to_vec(), &"kick".to_string());
    assert_eq!(session.save(&e, false), SaveStep::UseFolder { folder: b"".to_vec() });
}

#[test]
fn saving_goes_where_the_answer_says() {
    let ask_file = SaveStep::AskFile { start: None };
    assert_eq!(save_target(ask_file, None), SaveTarget::Nowhere);
    assert_eq!(save_target(SaveStep::AskFolder, None), SaveTarget::Nowhere);
    assert_eq!(save_target(SaveStep::Nothing, Some(b"/a".to_vec())), SaveTarget::Nowhere);
    let folder = b"/a".to_vec();
    let into = SaveTarget::Folder { folder: folder.clone() };
    assert_eq!(save_target(SaveStep::AskFolder, Some(folder.clone())), into);
    assert_eq!(save_target(SaveStep::UseFolder { folder }, None), into);
}

#[test]
fn polling_reports_changes_and_errors() {
    let mut e = Engine::new();
    let mut session = Session::new(None);
    let changes = session.poll(&mut e, Levels::default());
    assert!(!changes.status && !changes.levels && !changes.message);
    e.start_recording();
    e.capture_step(CaptureEvent::Read(vec![s(0.5), s(-0.25)]));
    e.capture_step(CaptureEvent::ReadFailed("gone".to_string()));
    let changes = session.poll(&mut e, Levels::default());
    assert!(changes.status && changes.levels && changes.message);
    assert_eq!(session.status().frames, 1);
    assert!(session.status().recording);
    assert_eq!(session.levels().load().to_vec(), vec![s(0.5), s(0.25)]);
    assert_eq!(session.status_text(), "PulseAudio read failed: gone");
    assert!(session.is_error());
    // The meter falls back slowly, and the error is reported once.
    e.capture_step(CaptureEvent::Read(vec![s(0.0), s(0.0)]));
    let decayed = Levels { l: s(0.25), r: s(0.00005) };
    let changes = session.poll(&mut e, decayed);
    assert!(!changes.message);
    assert_eq!(session.levels().load().to_vec(), vec![s(0.25), s(0.0)]);
}

#[test]
fn meters_settle() {
    assert_eq!(settle(s(0.3), s(0.5)), s(0.5));
    assert_eq!(settle(s(0.5), s(0.3)), s(0.5));
    assert_eq!(settle(s(0.00009), s(0.00005)), s(0.0));
    assert_eq!(settle(s(0.0), s(0.0001)), s(0.0001));
}

#[test]
fn meter_readings() {
    let r = reading(s(0.5), s(-6.0206));
    assert_eq!(r.db, s(-6.0206));
    assert!(!r.silent);
    assert_eq!(reading(s(2.0), s(6.0)).db, s(0.0));
    let floor = reading(s(1e-5), s(-100.0));
    assert_eq!(floor.db, s(-60.0));
    assert!(floor.silent);
    assert!(reading(s(0.0), s(f32::NEG_INFINITY)).silent);
    assert!(reading(s(0.0), s(0.0)).silent);
}

#[test]
fn windows_stay_in_the_recording() {
    assert_eq!(visible_len(f(1000.0), f(1000.0)), None);
    assert_eq!(visible_len(f(5000.0), f(1000.0)), None);
    assert_eq!(visible_len(f(10.0), f(1000.0)), Some(f(64.0)));
    assert_eq!(visible_len(f(800.0), f(1000.0)), Some(f(800.0)));
    // A recording shorter than the shortest window is always shown whole.
    assert_eq!(visible_len(f(10.0), f(40.0)), None);
    let w = placed(f(-3.5), f(800.0), f(200.0));
    assert_eq!((value(w.start), value(w.len)), (0.0, 800.0));
    assert_eq!(value(placed(f(950.0), f(800.0), f(200.0)).start), 200.0);
    assert_eq!(value(placed(f(17.25), f(800.0), f(200.0)).start), 17.25);
    let (_, mut session) = with_frames(1000);
    session.set_view(f(250.0), f(800.0));
    assert_eq!(value(session.zoom().unwrap().start), 200.0);
    session.set_view(f(250.0), f(1000.0));
    assert!(session.zoom().is_none());
    session.set_view(f(990.0), f(1.0));
    assert_eq!(value(session.zoom().unwrap().start), 936.0);
    assert_eq!(value(session.zoom().unwrap().len), 64.0);
    let mut empty = Session::new(None);
    empty.set_view(f(0.0), f(0.5));
    assert!(empty.zoom().is_none());
}

#[test]
fn the_wheel_zooms() {
    assert_eq!(wheel(10, f(-1.0)), Some(Zoom::In));
    assert_eq!(wheel(10, f(0.5)), Some(Zoom::Out));
    assert_eq!(wheel(10, f(0.0)), None);
    assert_eq!(wheel(10, f(-0.0)), None);
    assert_eq!(wheel(0, f(-1.0)), None);
}

#[test]
fn three_pixels_make_a_drag() {
    assert!(is_drag(f(3.0)));
    assert!(is_drag(f(400.5)));
    assert!(!is_drag(f(2.999)));
    assert!(!is_drag(f(0.0)));
    assert!(!is_drag(f(f64::NAN)));
}

#[test]
fn positions_are_ordered_like_floats() {
    let all = [
        f64::NEG_INFINITY,
        -1e300,
        -64.0,
        -1e-310,
        -0.0,
        0.0,
        5e-324,
        0.1,
        64.0,
        1e300,
        f64::INFINITY,
        f64::NAN,
    ];
    for a in all {
        for b in all {
            assert_eq!(f(a).below(f(b)), a < b, "{a} < {b}");
        }
        assert_eq!(f(a).is_nan(), a.is_nan());
        assert_eq!(f(a).clamp(f(-1.0), f(64.0)).to_bits(), a.clamp(-1.0, 64.0).to_bits());
    }
}
