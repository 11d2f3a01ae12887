//! The session behind the window: what the keys, the buttons and the mouse do to the
//! engine and to the selection, what the status bar says, and where samples are saved.

use crate::audio::{frame_range, Levels};
use crate::clock::{fmt_time, time_text};
use crate::engine::{
    play_outcome, playing_starts_the_asked_frames, Engine, EngineState, Playback, Status,
};
use crate::meter::{settle, settled};
use crate::path::{
    in_folder, names_file, parent_folder, parent_path, trimmed, wav_path, wav_path_keeps_folder,
    with_wav_extension,
};
use crate::sample::{Frame, Sample};
use crate::save::{sample_lies_in_folder, sample_name};
use crate::selection::{Button, Selection};
use crate::view::{Real, Window};
use crate::zoom::{window_for, window_of};
use vstd::prelude::*;
use vstd::utf8::encode_utf8;

verus! {

/// Everything a session knows.
#[verifier::ext_equal]
pub struct SessionState {
    pub selection: Selection,
    /// Visible part of the waveform; `None` for the whole recording.
    pub zoom: Option<Window>,
    /// Text of the status bar; empty when there is nothing to report.
    pub message: Seq<char>,
    pub is_error: bool,
    /// Folder for saved samples, in the bytes of the file system.
    pub folder: Option<Seq<u8>>,
    /// The engine as last polled.
    pub status: Status,
    /// The meter as last polled.
    pub levels: Frame,
}

/// The view of an optional folder.
pub open spec fn folder_view(folder: Option<Vec<u8>>) -> Option<Seq<u8>> {
    match folder {
        Some(bytes) => Some(bytes@),
        None => None,
    }
}

/// What changed in a poll.
#[derive(Clone, Copy, Debug, PartialEq, Eq, Structural)]
pub struct Changes {
    pub status: bool,
    pub levels: bool,
    pub message: bool,
}

/// What has to be asked before a sample can be saved.
#[derive(Debug, PartialEq, Eq)]
pub enum SaveStep {
    /// There is nothing to save.
    Nothing,
    /// Ask for a file, starting in the folder if one is known.
    AskFile { start: Option<Vec<u8>> },
    /// Ask for the folder.
    AskFolder,
    /// Save into the folder under an unused name.
    UseFolder { folder: Vec<u8> },
}

/// Where a sample is saved.
#[derive(Debug, PartialEq, Eq)]
pub enum SaveTarget {
    /// It is not saved.
    Nowhere,
    /// In this file.
    File { path: Vec<u8> },
    /// In this folder, under an unused name.
    Folder { folder: Vec<u8> },
}

/// The session.
pub struct Session {
    selection: Selection,
    zoom: Option<Window>,
    message: String,
    is_error: bool,
    folder: Option<Vec<u8>>,
    status: Status,
    levels: Levels,
}

impl View for Session {
    type V = SessionState;

    closed spec fn view(&self) -> SessionState {
        SessionState {
            selection: self.selection,
            zoom: self.zoom,
            message: self.message@,
            is_error: self.is_error,
            folder: folder_view(self.folder),
            status: self.status,
            levels: self.levels.frame(),
        }
    }
}

impl SessionState {
    /// A new session that saves into `folder`, if one is given.
    pub open spec fn initial(folder: Option<Seq<u8>>) -> SessionState {
        SessionState {
            selection: Selection::none(),
            zoom: None,
            message: Seq::empty(),
            is_error: false,
            folder,
            status: Status { frames: 0, recording: false, playing: false, play_pos: 0 },
            levels: Frame { l: Sample { bits: 0 }, r: Sample { bits: 0 } },
        }
    }

    /// After Clear: selection, cursor, zoom and message are dropped.
    pub open spec fn cleared(self) -> SessionState {
        SessionState {
            selection: self.selection.reset(),
            zoom: None,
            message: Seq::empty(),
            is_error: false,
            ..self
        }
    }

    /// The frames that Space plays: the selection, or from the cursor to the end.
    pub open spec fn space_range(self, frames: usize) -> (usize, usize) {
        self.selection.range_or(self.selection.cursor, frames)
    }

    /// The frames that Save and Save As export: the selection, or everything.
    pub open spec fn export_range(self, frames: usize) -> (usize, usize) {
        self.selection.range_or(0, frames)
    }

    pub open spec fn said(self, message: Seq<char>, is_error: bool) -> SessionState {
        SessionState { message, is_error, ..self }
    }

    /// After a sample was saved as the file at `path`, which is shown as `name`: the
    /// folder of the file is remembered.
    pub open spec fn saved_as(self, path: Seq<u8>, name: Seq<char>) -> SessionState {
        SessionState { folder: parent_path(path), ..self.said("Saved "@ + name, false) }
    }

    /// The status bar: the message, or else what Save would export.
    pub open spec fn status_text(self) -> Seq<char> {
        if self.message.len() > 0 {
            self.message
        } else {
            match self.selection.region {
                Some((a, b)) => "Selection: "@ + time_text((b - a) as nat)
                    + " — Save exports the selection"@,
                None => if self.status.frames > 0 {
                    "No selection — Save exports the whole recording"@
                } else {
                    "Pick the input source in pavucontrol; press Record to begin."@
                },
            }
        }
    }
}

/// `job` and `after` are what Space makes of the engine `s`: it stops what plays, and
/// else plays, unless something is being recorded.
pub open spec fn space_outcome(
    session: SessionState,
    s: EngineState,
    job: Option<Playback>,
    after: EngineState,
) -> bool {
    if s.playing {
        after == s.playback_stopped() && job is None
    } else if s.recording {
        after == s && job is None
    } else {
        let (a, b) = session.space_range(s.frames() as usize);
        play_outcome(s, a as nat, b as nat, job, after)
    }
}

/// `job` and `after` are what letting go of the primary button makes of the engine
/// `s`: a click plays from there to the end, unless something is being recorded.
pub open spec fn click_outcome(
    session: SessionState,
    moved: bool,
    s: EngineState,
    job: Option<Playback>,
    after: EngineState,
) -> bool {
    match session.selection.clicked(moved, true) {
        Some(frame) => if session.status.recording {
            after == s && job is None
        } else {
            play_outcome(s, frame as nat, session.status.frames as nat, job, after)
        },
        None => after == s && job is None,
    }
}

/// The meter after a step, each channel for itself.
pub open spec fn meter_after(decayed: Frame, raw: Frame) -> Frame {
    Frame { l: settled(decayed.l, raw.l), r: settled(decayed.r, raw.r) }
}

/// The step that saving takes first.
pub open spec fn save_step(session: SessionState, frames: nat, ask_name: bool, step: SaveStep) -> bool {
    if frames == 0 {
        step is Nothing
    } else if ask_name {
        step matches SaveStep::AskFile { start } && folder_view(start) == session.folder
    } else {
        match session.folder {
            Some(known) => step matches SaveStep::UseFolder { folder } && folder@ == known,
            None => step is AskFolder,
        }
    }
}

/// Where a sample is saved after a step, with the `answer` to what was asked: nowhere
/// without an answer, else in the chosen file, which gets its extension, or in the chosen
/// or known folder.
pub open spec fn is_target(step: SaveStep, answer: Option<Vec<u8>>, target: SaveTarget) -> bool {
    match step {
        SaveStep::Nothing => target is Nowhere,
        SaveStep::AskFile { .. } => match answer {
            Some(chosen) => target matches SaveTarget::File { path } && path@ == wav_path(chosen@),
            None => target is Nowhere,
        },
        SaveStep::AskFolder => match answer {
            Some(chosen) => target matches SaveTarget::Folder { folder } && folder@ == chosen@,
            None => target is Nowhere,
        },
        SaveStep::UseFolder { folder: known } => target matches SaveTarget::Folder { folder }
            && folder@ == known@,
    }
}

/// Where a sample is saved after a step, with the `answer` to what was asked.
pub fn save_target(step: SaveStep, answer: Option<Vec<u8>>) -> (target: SaveTarget)
    ensures
        is_target(step, answer, target),
{
    match (step, answer) {
        (SaveStep::AskFile { .. }, Some(chosen)) => SaveTarget::File {
            path: with_wav_extension(chosen),
        },
        (SaveStep::AskFolder, Some(folder)) => SaveTarget::Folder { folder },
        (SaveStep::UseFolder { folder }, _) => SaveTarget::Folder { folder },
        _ => SaveTarget::Nowhere,
    }
}

/// A copy of some bytes.
fn copied(bytes: &Vec<u8>) -> (copy: Vec<u8>)
    ensures
        copy@ == bytes@,
{
    let copy = bytes.clone();
    assert(copy@ =~= bytes@);
    copy
}

impl Session {
    /// A selected region is never empty nor reversed.
    #[verifier::type_invariant]
    spec fn inv(self) -> bool {
        self.selection.ordered()
    }

    /// A session that saves into `folder`, if one is given.
    pub fn new(folder: Option<Vec<u8>>) -> (session: Session)
        ensures
            session@ == SessionState::initial(folder_view(folder)),
    {
        Session {
            selection: Selection::new(),
            zoom: None,
            message: String::new(),
            is_error: false,
            folder,
            status: Status::default(),
            levels: Levels::default(),
        }
    }

    pub fn selection(&self) -> (s: Selection)
        ensures
            s == self@.selection,
    {
        self.selection
    }

    pub fn zoom(&self) -> (window: Option<Window>)
        ensures
            window == self@.zoom,
    {
        self.zoom
    }

    pub fn status(&self) -> (s: Status)
        ensures
            s == self@.status,
    {
        self.status
    }

    pub fn levels(&self) -> (levels: Levels)
        ensures
            levels.frame() == self@.levels,
    {
        self.levels
    }

    pub fn is_error(&self) -> (b: bool)
        ensures
            b == self@.is_error,
    {
        self.is_error
    }

    /// Takes in the state of the engine. `decayed` is what is left of the meter's
    /// levels since the last poll.
    pub fn poll(&mut self, engine: &mut Engine, decayed: Levels) -> (changes: Changes)
        requires
            old(engine).wf(),
        ensures
            final(engine).wf(),
            final(engine)@ == (EngineState { error: None, ..old(engine)@ }),
            final(self)@.status.shows(old(engine)@),
            final(self)@.levels == meter_after(decayed.frame(), old(engine)@.metered()),
            match old(engine)@.error {
                Some(e) => final(self)@.message == e && final(self)@.is_error,
                None => final(self)@.message == old(self)@.message && final(self)@.is_error == old(
                    self,
                )@.is_error,
            },
            final(self)@ == (SessionState {
                status: final(self)@.status,
                levels: final(self)@.levels,
                message: final(self)@.message,
                is_error: final(self)@.is_error,
                ..old(self)@
            }),
            changes.status == (final(self)@.status != old(self)@.status),
            changes.levels == (final(self)@.levels != old(self)@.levels),
            changes.message == (old(engine)@.error is Some),
    {
        proof {
            use_type_invariant(&*self);
        }
        let status = engine.status();
        let raw = engine.meter_levels();
        let levels = Levels { l: settle(decayed.l, raw.l), r: settle(decayed.r, raw.r) };
        let status_changed = !(status == self.status);
        let levels_changed = !(levels == self.levels);
        self.status = status;
        self.levels = levels;
        let message_changed = match engine.take_error() {
            Some(e) => {
                self.message = e;
                self.is_error = true;
                true
            },
            None => false,
        };
        Changes { status: status_changed, levels: levels_changed, message: message_changed }
    }

    /// Space: stops playback, or plays the selection or from the cursor to the end.
    pub fn space(&self, engine: &mut Engine) -> (job: Option<Playback>)
        requires
            old(engine).wf(),
        ensures
            final(engine).wf(),
            space_outcome(self@, old(engine)@, job, final(engine)@),
    {
        if engine.is_playing() {
            engine.stop_playback();
            return None;
        }
        let frames: usize = engine.frames();
        if engine.is_recording() || frames == 0 {
            return None;
        }
        let (a, b) = self.selection.range(self.selection.cursor, frames);
        engine.play(a, b)
    }

    /// Escape: stops playback, or clears the selection and the cursor.
    pub fn escape(&mut self, engine: &mut Engine)
        requires
            old(engine).wf(),
        ensures
            final(engine).wf(),
            old(engine)@.playing ==> final(engine)@ == old(engine)@.playback_stopped()
                && final(self)@ == old(self)@,
            !old(engine)@.playing ==> final(engine)@ == old(engine)@ && final(self)@ == (
            SessionState { selection: old(self)@.selection.reset(), ..old(self)@ }),
    {
        if engine.is_playing() {
            engine.stop_playback();
        } else {
            let mut selection = self.selection;
            selection.clear();
            self.selection = selection;
        }
    }

    /// Clear: drops the recording, selection, cursor, zoom and message.
    pub fn clear(&mut self, engine: &mut Engine)
        requires
            old(engine).wf(),
        ensures
            final(engine).wf(),
            final(engine)@ == old(engine)@.cleared(),
            final(self)@ == old(self)@.cleared(),
    {
        engine.clear();
        let mut selection = self.selection;
        selection.clear();
        self.selection = selection;
        self.zoom = None;
        self.message = String::new();
        self.is_error = false;
    }

    /// A mouse button went down over `frame`.
    pub fn press(&mut self, button: Button, frame: usize)
        ensures
            final(self)@ == (SessionState {
                selection: old(self)@.selection.pressed(button, frame, old(self)@.status.frames),
                ..old(self)@
            }),
    {
        let frames: usize = self.status.frames;
        proof {
            use_type_invariant(&*self);
        }
        let mut selection = self.selection;
        selection.press(button, frame, frames);
        self.selection = selection;
    }

    /// The pointer moved to `frame`, with the primary button `held` or not. `moved` says
    /// whether the drag in progress travelled far enough to be one.
    pub fn move_to(&mut self, held: bool, frame: usize, moved: bool)
        ensures
            final(self)@ == (SessionState {
                selection: old(self)@.selection.moved_to(
                    held,
                    frame,
                    old(self)@.status.frames,
                    moved,
                ),
                ..old(self)@
            }),
    {
        let frames: usize = self.status.frames;
        proof {
            use_type_invariant(&*self);
        }
        let mut selection = self.selection;
        selection.move_to(held, frame, frames, moved);
        self.selection = selection;
    }

    /// A mouse button went up.
    pub fn release(&mut self, button: Button, moved: bool, engine: &mut Engine) -> (job: Option<
        Playback,
    >)
        requires
            old(engine).wf(),
        ensures
            final(engine).wf(),
            button == Button::Primary ==> {
                &&& final(self)@ == (SessionState {
                    selection: old(self)@.selection.drag_ended(moved, true),
                    ..old(self)@
                })
                &&& click_outcome(old(self)@, moved, old(engine)@, job, final(engine)@)
            },
            button != Button::Primary ==> {
                &&& final(self)@ == old(self)@
                &&& final(engine)@ == old(engine)@
                &&& job is None
            },
    {
        if !matches!(button, Button::Primary) {
            return None;
        }
        proof {
            use_type_invariant(&*self);
        }
        let mut selection = self.selection;
        let click = selection.end_drag(moved, true);
        self.selection = selection;
        match click {
            Some(frame) => {
                let frames: usize = self.status.frames;
                if self.status.recording || frames == 0 {
                    None
                } else {
                    engine.play(frame, frames)
                }
            },
            None => None,
        }
    }

    /// The pointer left the waveform.
    pub fn leave(&mut self, moved: bool)
        ensures
            final(self)@ == (SessionState {
                selection: old(self)@.selection.drag_ended(moved, false),
                ..old(self)@
            }),
    {
        proof {
            use_type_invariant(&*self);
        }
        let mut selection = self.selection;
        let _ = selection.end_drag(moved, false);
        self.selection = selection;
    }

    /// The wheel or the minimap asked for a view of length `len` at `start`: a window of
    /// the recording is shown, or all of it.
    pub fn set_view(&mut self, start: Real, len: Real)
        requires
            !len.nan(),
        ensures
            final(self)@ == (SessionState {
                zoom: window_of(old(self)@.status.frames, start, len),
                ..old(self)@
            }),
    {
        proof {
            use_type_invariant(&*self);
        }
        self.zoom = window_for(self.status.frames, start, len);
    }

    /// What the status bar says.
    pub fn status_text(&self) -> (text: String)
        ensures
            text@ == self@.status_text(),
    {
        proof {
            use_type_invariant(self);
        }
        if !self.message.as_str().is_empty() {
            return self.message.clone();
        }
        match self.selection.region {
            Some((a, b)) => {
                let mut text = "Selection: ".to_owned();
                let length = fmt_time(b - a);
                text.append(length.as_str());
                text.append(" — Save exports the selection");
                text
            },
            None => {
                let text = if self.status.frames > 0 {
                    "No selection — Save exports the whole recording"
                } else {
                    "Pick the input source in pavucontrol; press Record to begin."
                };
                text.to_owned()
            },
        }
    }

    /// Save (`ask_name` false) or Save As: what has to be asked first.
    pub fn save(&self, engine: &Engine, ask_name: bool) -> (step: SaveStep)
        requires
            engine.wf(),
        ensures
            save_step(self@, engine@.frames(), ask_name, step),
    {
        if engine.frames() == 0 {
            return SaveStep::Nothing;
        }
        let folder: Option<Vec<u8>> = match &self.folder {
            Some(bytes) => Some(copied(bytes)),
            None => None,
        };
        if ask_name {
            return SaveStep::AskFile { start: folder };
        }
        match folder {
            Some(folder) => SaveStep::UseFolder { folder },
            None => SaveStep::AskFolder,
        }
    }

    /// The samples to save: the selection, or everything up to `frames`.
    pub fn export(&self, engine: &Engine, frames: usize) -> (data: Vec<Sample>)
        requires
            engine.wf(),
        ensures
            ({
                let (a, b) = self@.export_range(frames);
                data@ == frame_range(engine@.samples, a as int, b as int)
            }),
    {
        let (a, b) = self.selection.range(0, frames);
        engine.slice(a, b)
    }

    /// A sample was saved as the file at `path`, which is shown as `name`.
    pub fn saved(&mut self, path: &Vec<u8>, name: &String)
        ensures
            final(self)@ == old(self)@.saved_as(path@, name@),
    {
        proof {
            use_type_invariant(&*self);
        }
        let mut text = "Saved ".to_owned();
        text.append(name.as_str());
        self.message = text;
        self.is_error = false;
        self.folder = parent_folder(path);
    }

    /// A sample could not be saved.
    pub fn save_failed(&mut self, reason: &String)
        ensures
            final(self)@ == old(self)@.said("Save failed: "@ + reason@, true),
    {
        proof {
            use_type_invariant(&*self);
        }
        let mut text = "Save failed: ".to_owned();
        text.append(reason.as_str());
        self.message = text;
        self.is_error = true;
    }
}

/// Save and Save As export the selection if there is one, otherwise the whole
/// recording.
pub proof fn export_is_selection_or_everything(session: SessionState, s: EngineState)
    requires
        s.samples.len() % 2 == 0,
        s.frames() <= usize::MAX,
    ensures
        ({
            let (a, b) = session.export_range(s.frames() as usize);
            let data = frame_range(s.samples, a as int, b as int);
            &&& session.selection.region is None ==> data == s.samples
            &&& session.selection.region matches Some((from, to)) ==> from <= to <= s.frames()
                ==> data == s.samples.subrange(2 * from, 2 * to)
        }),
{
    assert(s.samples.subrange(0, s.samples.len() as int) =~= s.samples);
}

/// Save As asks for a file every time, starting in the remembered folder. The chosen
/// file is written with the extension `wav`, and its folder is remembered; without a
/// choice nothing is written.
pub proof fn save_as_remembers_folder_of_file(
    session: SessionState,
    frames: nat,
    step: SaveStep,
    answer: Option<Vec<u8>>,
    target: SaveTarget,
    name: Seq<char>,
)
    requires
        frames > 0,
        save_step(session, frames, true, step),
        is_target(step, answer, target),
    ensures
        step matches SaveStep::AskFile { start } && folder_view(start) == session.folder,
        match answer {
            Some(chosen) => {
                let written = wav_path(chosen@);
                &&& target matches SaveTarget::File { path } && path@ == written
                &&& session.saved_as(written, name).folder == parent_path(written)
                &&& names_file(chosen@) ==> parent_path(written) == parent_path(chosen@)
            },
            None => target is Nowhere,
        },
{
    if let Some(chosen) = answer {
        wav_path_keeps_folder(chosen@);
    }
}

/// Save asks for a folder only as long as none is known, writes into the folder under a
/// generated name, and remembers it; without a choice nothing is written.
pub proof fn save_stays_in_folder(
    session: SessionState,
    frames: nat,
    step: SaveStep,
    answer: Option<Vec<u8>>,
    target: SaveTarget,
    number: nat,
    name: Seq<char>,
)
    requires
        frames > 0,
        save_step(session, frames, false, step),
        is_target(step, answer, target),
    ensures
        session.folder is None <==> step is AskFolder,
        target is Nowhere <==> session.folder is None && answer is None,
        !(target is Nowhere) ==> {
            let into = match session.folder {
                Some(known) => known,
                None => answer->0@,
            };
            let written = in_folder(into, encode_utf8(sample_name(number)));
            &&& target matches SaveTarget::Folder { folder } && folder@ == into
            &&& session.saved_as(written, name).folder == Some(trimmed(into))
        },
{
    match session.folder {
        Some(known) => sample_lies_in_folder(known, number),
        None => if let Some(chosen) = answer {
            sample_lies_in_folder(chosen@, number);
        },
    }
}

/// The folder is asked for once: after a file was saved, Save goes to its folder and Save
/// As starts there.
pub proof fn folder_is_remembered(
    session: SessionState,
    path: Seq<u8>,
    folder: Seq<u8>,
    name: Seq<char>,
    frames: nat,
    ask_name: bool,
    step: SaveStep,
)
    requires
        frames > 0,
        parent_path(path) == Some(folder),
        save_step(session.saved_as(path, name), frames, ask_name, step),
    ensures
        !ask_name ==> (step matches SaveStep::UseFolder { folder: f } && f@ == folder),
        ask_name ==> (step matches SaveStep::AskFile { start } && folder_view(start) == Some(
            folder,
        )),
{
}

/// Nothing plays while something is recorded: Space, a click and the Record button keep
/// the two apart, given that the session has seen the engine as it is.
pub proof fn session_never_plays_while_recording(
    session: SessionState,
    moved: bool,
    s: EngineState,
    job: Option<Playback>,
    after: EngineState,
)
    requires
        !(s.recording && s.playing),
        session.status.shows(s),
        space_outcome(session, s, job, after) || click_outcome(session, moved, s, job, after)
            || after == s.recording_toggled(),
    ensures
        !(after.recording && after.playing),
        after.samples == s.samples,
{
}

/// Pressing Space while something plays stops it, and pressing it again starts over
/// from the selection or the cursor.
pub proof fn space_toggles_playback(
    session: SessionState,
    s: EngineState,
    job: Option<Playback>,
    after: EngineState,
)
    requires
        space_outcome(session, s, job, after),
        !s.recording,
    ensures
        s.playing ==> !after.playing && job is None,
        !s.playing ==> {
            let (a, b) = session.space_range(s.frames() as usize);
            after.playing <==> s.can_play(a as nat, b as nat)
        },
        job is Some <==> !s.playing && after.playing,
{
}

/// Clear leaves nothing selected, recorded, zoomed or said.
pub proof fn clear_resets_session(session: SessionState)
    ensures
        session.cleared().selection.region is None,
        session.cleared().selection.cursor == 0,
        session.cleared().zoom is None,
        session.cleared().message.len() == 0,
        session.cleared().folder == session.folder,
{
}

/// A new session shows everything, has nothing selected or to say, and saves into the given
/// folder.
pub proof fn new_session_has_nothing(folder: Option<Seq<u8>>)
    ensures
        ({
            let s = SessionState::initial(folder);
            &&& s.selection.region is None && s.selection.cursor == 0 && s.selection.drag is None
            &&& s.zoom is None && s.message.len() == 0 && !s.is_error && s.folder == folder
            &&& s.status.frames == 0 && !s.status.recording && !s.status.playing
                && s.status.play_pos == 0
            &&& s.levels.l.bits == 0 && s.levels.r.bits == 0
        }),
{
}

/// Clear drops region, cursor, zoom and message, and nothing else.
pub proof fn clearing_the_session(s: SessionState)
    ensures
        ({
            let t = s.cleared();
            &&& t.selection.region is None && t.selection.cursor == 0 && t.selection.drag
                == s.selection.drag
            &&& t.zoom is None && t.message.len() == 0 && !t.is_error
            &&& t.folder == s.folder && t.status == s.status && t.levels == s.levels
        }),
{
}

/// Saying something changes the message and nothing else, and saving changes that and the
/// folder.
pub proof fn saying_and_saving(s: SessionState, message: Seq<char>, is_error: bool, path: Seq<u8>)
    ensures
        ({
            let t = s.said(message, is_error);
            &&& t.message == message && t.is_error == is_error
            &&& t.selection == s.selection && t.zoom == s.zoom && t.folder == s.folder && t.status
                == s.status && t.levels == s.levels
        }),
        ({
            let t = s.saved_as(path, message);
            &&& t.message == "Saved "@ + message && !t.is_error
            &&& t.folder == parent_path(path)
            &&& t.selection == s.selection && t.zoom == s.zoom && t.status == s.status && t.levels
                == s.levels
        }),
{
}

/// Space stops what plays, does nothing while recording, and else plays: the selection,
/// from its first frame to its last, or without one everything from the cursor on.
pub proof fn space_plays_selection_or_from_cursor(
    session: SessionState,
    s: EngineState,
    job: Option<Playback>,
    after: EngineState,
)
    requires
        space_outcome(session, s, job, after),
        s.samples.len() % 2 == 0,
        s.samples.len() <= usize::MAX,
    ensures
        s.playing ==> {
            &&& job is None && !after.playing
            &&& after.samples == s.samples && after.recording == s.recording && after.play_pos
                == s.play_pos
            &&& after.generation != s.generation
        },
        !s.playing && s.recording ==> job is None && after == s,
        !s.playing && !s.recording && session.selection.region is None ==> {
            let c = session.selection.cursor as int;
            &&& 2 * c < s.samples.len() ==> {
                &&& job matches Some(j) && j@.start == c && j@.data == s.samples.skip(2 * c)
                    && j@.sent == 0 && j@.generation == after.generation
                &&& after.playing && after.play_pos == c && after.samples == s.samples
                &&& after.generation != s.generation
            }
            &&& 2 * c >= s.samples.len() ==> job is None && after == s
        },
        !s.playing && !s.recording ==> (session.selection.region matches Some((a, b)) ==> {
            &&& a < b && 2 * a < s.samples.len() ==> {
                &&& job matches Some(j) && j@.start == a && j@.data == s.samples.subrange(
                    2 * a as int,
                    if 2 * b <= s.samples.len() {
                        2 * b as int
                    } else {
                        s.samples.len() as int
                    },
                ) && j@.sent == 0 && j@.generation == after.generation
                &&& after.playing && after.play_pos == a && after.samples == s.samples
                &&& after.generation != s.generation
            }
            &&& a >= b || 2 * a >= s.samples.len() ==> job is None && after == s
        }),
{
    let c = session.selection.cursor as int;
    if 2 * c < s.samples.len() {
        assert(s.samples.skip(2 * c) =~= s.samples.subrange(2 * c, s.samples.len() as int));
    }
    let (a, b) = session.space_range(s.frames() as usize);
    if !s.playing && !s.recording {
        playing_starts_the_asked_frames(s, a as nat, b as nat, job, after);
    }
}

/// Letting go of the primary button without having moved plays from where it was pressed to
/// the end that is shown, unless something is being recorded; after a drag, and without
/// one, nothing is played.
pub proof fn click_plays_from_there(
    session: SessionState,
    moved: bool,
    s: EngineState,
    job: Option<Playback>,
    after: EngineState,
)
    requires
        click_outcome(session, moved, s, job, after),
        s.samples.len() % 2 == 0,
    ensures
        session.selection.drag is None || moved || session.status.recording ==> job is None && after
            == s,
        session.selection.drag matches Some((a, _)) ==> !moved && !session.status.recording ==> {
            let until = if 2 * session.status.frames <= s.samples.len() {
                2 * session.status.frames as int
            } else {
                s.samples.len() as int
            };
            &&& 2 * a < until ==> {
                &&& job matches Some(j) && j@.start == a && j@.data == s.samples.subrange(
                    2 * a as int,
                    until,
                ) && j@.sent == 0 && j@.generation == after.generation
                &&& after.playing && after.play_pos == a && after.samples == s.samples
                &&& after.generation != s.generation
            }
            &&& 2 * a >= until ==> job is None && after == s
        },
{
    if let Some((a, _)) = session.selection.drag {
        if !moved && !session.status.recording {
            let frames = session.status.frames as nat;
            playing_starts_the_asked_frames(s, a as nat, frames, job, after);
        }
    }
}

/// What is played and what is exported is the region, whatever the recording; without one
/// it is what lies between the cursor and the end, and everything.
pub proof fn ranges_of_the_session(s: SessionState, frames: usize)
    ensures
        s.selection.region matches Some((a, b)) ==> s.space_range(frames) == (a, b)
            && s.export_range(frames) == (a, b),
        s.selection.region is None ==> s.space_range(frames) == (s.selection.cursor, frames)
            && s.export_range(frames) == (0usize, frames),
{
}

/// The status bar says the message if there is one; else how long the selection is, or that
/// there is none, or what to do first.
pub proof fn status_bar_says(s: SessionState)
    ensures
        s.message.len() > 0 ==> s.status_text() == s.message,
        s.message.len() == 0 ==> {
            &&& s.selection.region matches Some((a, b)) ==> a <= b ==> s.status_text()
                == "Selection: "@ + time_text((b - a) as nat) + " — Save exports the selection"@
            &&& s.selection.region is None && s.status.frames > 0 ==> s.status_text()
                == "No selection — Save exports the whole recording"@
            &&& s.selection.region is None && s.status.frames == 0 ==> s.status_text()
                == "Pick the input source in pavucontrol; press Record to begin."@
        },
{
}

/// With nothing recorded nothing is asked and nothing saved.
pub proof fn nothing_recorded_nothing_saved(
    session: SessionState,
    ask_name: bool,
    step: SaveStep,
    answer: Option<Vec<u8>>,
    target: SaveTarget,
)
    requires
        save_step(session, 0, ask_name, step),
        is_target(step, answer, target),
    ensures
        step is Nothing,
        target is Nowhere,
{
}

/// Each channel of the meter shows the louder of its own new peak and what is left of its
/// own old one, and nothing once that is below the value 0.0001.
pub proof fn meter_keeps_channels_apart(decayed: Frame, raw: Frame)
    requires
        !decayed.l.nan(),
        !decayed.r.nan(),
        !raw.l.nan(),
        !raw.r.nan(),
    ensures
        ({
            let m = meter_after(decayed, raw);
            &&& raw.l.order() >= 0x38d1_b717 && raw.l.order() >= decayed.l.order() ==> m.l == raw.l
            &&& decayed.l.order() >= 0x38d1_b717 && raw.l.order() < decayed.l.order() ==> m.l
                == decayed.l
            &&& raw.l.order() < 0x38d1_b717 && decayed.l.order() < 0x38d1_b717 ==> m.l.bits == 0
            &&& raw.r.order() >= 0x38d1_b717 && raw.r.order() >= decayed.r.order() ==> m.r == raw.r
            &&& decayed.r.order() >= 0x38d1_b717 && raw.r.order() < decayed.r.order() ==> m.r
                == decayed.r
            &&& raw.r.order() < 0x38d1_b717 && decayed.r.order() < 0x38d1_b717 ==> m.r.bits == 0
        }),
{
}

} // verus!
