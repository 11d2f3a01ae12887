//! The engine: what is recorded, what is played, and what the two audio loops do.
//!
//! The engine is one value that the window and the audio loops share behind a lock.
//! There is one capture loop for the whole session and one playback loop per play
//! request. A loop performs its blocking work without the lock, hands the outcome in as
//! an event, and gets the next thing to do.

use crate::audio::{
    frame_range, peak_levels, peaks, Levels, Recording, CHANNELS, CHUNK_SAMPLES, REOPEN_MILLIS,
    RETRY_MILLIS,
};
use crate::sample::{frames_of, zero, Frame, Sample};
use vstd::prelude::*;

verus! {

/// Everything an engine knows.
#[verifier::ext_equal]
pub struct EngineState {
    /// The recording, interleaved.
    pub samples: Seq<Sample>,
    pub recording: bool,
    pub playing: bool,
    /// Frame of the recording that is being played.
    pub play_pos: nat,
    /// Bumped on every play and stop, so that stale playback loops end.
    pub generation: u64,
    pub input: Frame,
    pub output: Frame,
    /// Last error of an audio loop that nobody has fetched.
    pub error: Option<Seq<char>>,
}

/// No signal.
pub open spec fn silence() -> Frame {
    Frame { l: zero(), r: zero() }
}

/// The generation behind `g`; after the last one the first comes again.
pub open spec fn next_generation(g: u64) -> u64 {
    if g == u64::MAX {
        0
    } else {
        (g + 1) as u64
    }
}

impl EngineState {
    /// A new engine.
    pub open spec fn initial() -> EngineState {
        EngineState {
            samples: Seq::empty(),
            recording: false,
            playing: false,
            play_pos: 0,
            generation: 0,
            input: silence(),
            output: silence(),
            error: None,
        }
    }

    /// Number of frames recorded.
    pub open spec fn frames(self) -> nat {
        self.samples.len() / 2
    }

    /// After playback was stopped: nothing plays, and whatever played is stale.
    pub open spec fn playback_stopped(self) -> EngineState {
        EngineState {
            generation: next_generation(self.generation),
            playing: false,
            output: silence(),
            ..self
        }
    }

    /// After recording was started: playback is stopped.
    pub open spec fn recording_started(self) -> EngineState {
        EngineState { recording: true, ..self.playback_stopped() }
    }

    pub open spec fn recording_stopped(self) -> EngineState {
        EngineState { recording: false, ..self }
    }

    /// After recording was started, or stopped if it was on.
    pub open spec fn recording_toggled(self) -> EngineState {
        if self.recording {
            self.recording_stopped()
        } else {
            self.recording_started()
        }
    }

    /// The level that the meter shows.
    pub open spec fn metered(self) -> Frame {
        if self.playing {
            self.output
        } else {
            self.input
        }
    }

    /// After everything recorded was dropped: playback and recording are stopped.
    pub open spec fn cleared(self) -> EngineState {
        EngineState { samples: Seq::empty(), ..self.playback_stopped().recording_stopped() }
    }

    /// There is a frame to play in `[start, end)`.
    pub open spec fn can_play(self, start: nat, end: nat) -> bool {
        start < end && start < self.frames()
    }

    /// After playback of what starts at `start` was begun.
    pub open spec fn play_begun(self, start: nat) -> EngineState {
        EngineState {
            generation: next_generation(self.generation),
            play_pos: start,
            playing: true,
            ..self
        }
    }

    /// After the playback loop of `generation` came to its end: only the most recent
    /// one may turn the engine idle.
    pub open spec fn playback_finished(self, generation: u64) -> EngineState {
        if self.generation == generation {
            EngineState { playing: false, output: silence(), ..self }
        } else {
            self
        }
    }

    pub open spec fn failed(self, message: Seq<char>) -> EngineState {
        EngineState { error: Some(message), ..self }
    }
}

/// What the window shows of an engine.
#[derive(Clone, Copy, Debug, PartialEq, Eq, Structural)]
pub struct Status {
    pub frames: usize,
    pub recording: bool,
    pub playing: bool,
    pub play_pos: usize,
}

impl Status {
    /// This is what `s` shows.
    pub open spec fn shows(self, s: EngineState) -> bool {
        &&& self.frames == s.frames()
        &&& self.recording == s.recording
        &&& self.playing == s.playing
        &&& self.play_pos == s.play_pos
    }

    /// Neither recording nor playing, so that Clear is offered.
    pub fn idle(self) -> (b: bool)
        ensures
            b == (!self.recording && !self.playing),
    {
        !self.recording && !self.playing
    }

    /// Something was recorded, so that saving is offered.
    pub fn can_save(self) -> (b: bool)
        ensures
            b == (self.frames > 0),
    {
        self.frames > 0
    }
}

impl Default for Status {
    fn default() -> (s: Status)
        ensures
            s.shows(EngineState::initial()),
    {
        Status { frames: 0, recording: false, playing: false, play_pos: 0 }
    }
}

/// What happened in the capture loop.
pub enum CaptureEvent {
    /// The input was opened.
    Opened,
    /// The input could not be opened, for this reason.
    OpenFailed(String),
    /// A chunk of interleaved frames was read.
    Read(Vec<Sample>),
    /// Reading failed, for this reason.
    ReadFailed(String),
}

/// What the capture loop does next.
#[derive(Clone, Copy, Debug, PartialEq, Eq, Structural)]
pub enum CaptureAction {
    /// Read a chunk.
    Read,
    /// Close the input, wait, and open it again.
    Reopen { millis: u64 },
}

/// The engine and the next action after an event of the capture loop.
pub open spec fn captured(s: EngineState, event: CaptureEvent) -> (EngineState, CaptureAction) {
    match event {
        CaptureEvent::Opened => (s, CaptureAction::Read),
        CaptureEvent::OpenFailed(e) => (
            EngineState { input: silence(), ..s.failed("PulseAudio capture unavailable: "@ + e@) },
            CaptureAction::Reopen { millis: REOPEN_MILLIS },
        ),
        CaptureEvent::Read(chunk) => (
            EngineState {
                input: peak_levels(frames_of(chunk@)),
                samples: if s.recording {
                    s.samples + chunk@
                } else {
                    s.samples
                },
                ..s
            },
            CaptureAction::Read,
        ),
        CaptureEvent::ReadFailed(e) => (
            s.failed("PulseAudio read failed: "@ + e@),
            CaptureAction::Reopen { millis: RETRY_MILLIS },
        ),
    }
}

/// What happened in a playback loop.
pub enum PlaybackEvent {
    /// The output was opened.
    Opened,
    /// The output could not be opened, for this reason.
    OpenFailed(String),
    /// The chunk was written.
    Wrote,
    /// Writing failed, for this reason.
    WriteFailed(String),
    /// Everything written has been heard.
    Drained,
}

/// What a playback loop does next.
#[derive(Clone, Copy, Debug, PartialEq, Eq, Structural)]
pub enum PlaybackAction {
    /// Write samples `[from, to)` of the clip.
    Write { from: usize, to: usize },
    /// Drop what was not heard yet, and end.
    Flush,
    /// Wait until everything written has been heard.
    Drain,
    /// End.
    Stop,
}

/// One request to play: the clip and how far it has been written.
pub struct Playback {
    data: Vec<Sample>,
    start: usize,
    generation: u64,
    sent: usize,
}

/// Everything a play request knows.
#[verifier::ext_equal]
pub struct PlaybackState {
    /// The clip, interleaved.
    pub data: Seq<Sample>,
    /// Frame of the recording at which the clip starts.
    pub start: nat,
    /// Generation of the engine that the request began.
    pub generation: u64,
    /// Samples of the clip that were written.
    pub sent: nat,
}

impl View for Playback {
    type V = PlaybackState;

    closed spec fn view(&self) -> PlaybackState {
        PlaybackState {
            data: self.data@,
            start: self.start as nat,
            generation: self.generation,
            sent: self.sent as nat,
        }
    }
}

impl PlaybackState {
    /// Where the chunk that begins at `sent` ends.
    pub open spec fn chunk_end(self) -> nat {
        if self.sent + CHUNK_SAMPLES <= self.data.len() {
            self.sent + CHUNK_SAMPLES as nat
        } else {
            self.data.len()
        }
    }

    /// The request is for whole frames of which whole frames were written.
    pub open spec fn valid(self) -> bool {
        &&& self.data.len() % 2 == 0
        &&& self.sent % 2 == 0
        &&& self.sent <= self.data.len()
        &&& self.data.len() <= usize::MAX
        &&& self.start + self.data.len() / 2 <= usize::MAX
    }
}

/// The request that `play` makes of frames `[start, end)`.
pub open spec fn request(s: EngineState, start: nat, end: nat) -> PlaybackState {
    PlaybackState {
        data: frame_range(s.samples, start as int, end as int),
        start,
        generation: next_generation(s.generation),
        sent: 0,
    }
}

/// `job` is the request that playing frames `[start, end)` makes, if there is any
/// frame to play, and `after` the engine then.
pub open spec fn play_outcome(
    s: EngineState,
    start: nat,
    end: nat,
    job: Option<Playback>,
    after: EngineState,
) -> bool {
    if s.can_play(start, end) {
        &&& after == s.play_begun(start)
        &&& job matches Some(j) && j.wf() && j@ == request(s, start, end)
    } else {
        after == s && job is None
    }
}

/// What a playback loop does once it has nothing more to write.
pub open spec fn wound_down(s: EngineState, job: PlaybackState) -> (EngineState, PlaybackAction) {
    if s.generation == job.generation {
        (s, PlaybackAction::Drain)
    } else {
        (s, PlaybackAction::Stop)
    }
}

/// What a playback loop does when the output is ready for a chunk: the chunk is
/// shown on the meter and the playhead moves to it, unless the request is stale.
pub open spec fn chunk_due(s: EngineState, job: PlaybackState) -> (EngineState, PlaybackAction) {
    if job.sent >= job.data.len() {
        wound_down(s, job)
    } else if s.generation != job.generation {
        (s, PlaybackAction::Flush)
    } else {
        (
            EngineState {
                output: peak_levels(
                    frames_of(job.data.subrange(job.sent as int, job.chunk_end() as int)),
                ),
                play_pos: job.start + job.sent / 2,
                ..s
            },
            PlaybackAction::Write { from: job.sent as usize, to: job.chunk_end() as usize },
        )
    }
}

/// The request after an event of its loop.
pub open spec fn job_after(job: PlaybackState, event: PlaybackEvent) -> PlaybackState {
    match event {
        PlaybackEvent::Wrote => PlaybackState { sent: job.chunk_end(), ..job },
        _ => job,
    }
}

/// The engine and the next action after an event of the playback loop of `job`.
pub open spec fn played(s: EngineState, job: PlaybackState, event: PlaybackEvent) -> (
    EngineState,
    PlaybackAction,
) {
    match event {
        PlaybackEvent::Opened => chunk_due(s, job),
        PlaybackEvent::OpenFailed(e) => (
            s.failed("PulseAudio playback unavailable: "@ + e@).playback_finished(job.generation),
            PlaybackAction::Stop,
        ),
        PlaybackEvent::Wrote => chunk_due(s, job_after(job, event)),
        PlaybackEvent::WriteFailed(e) => wound_down(s.failed("PulseAudio write failed: "@ + e@), job),
        PlaybackEvent::Drained => (s.playback_finished(job.generation), PlaybackAction::Stop),
    }
}

impl Playback {
    pub open spec fn wf(&self) -> bool {
        self@.valid()
    }

    /// Samples `[from, to)` of the clip.
    pub fn chunk(&self, from: usize, to: usize) -> (part: Vec<Sample>)
        requires
            from <= to <= self@.data.len(),
        ensures
            part@ == self@.data.subrange(from as int, to as int),
    {
        let mut part: Vec<Sample> = Vec::with_capacity(to - from);
        let mut i: usize = from;
        while i < to
            invariant
                from <= i <= to <= self.data@.len(),
                part@ == self.data@.subrange(from as int, i as int),
            decreases to - i,
        {
            part.push(self.data[i]);
            i = i + 1;
            assert(part@ =~= self.data@.subrange(from as int, i as int));
        }
        part
    }
}

/// The audio engine.
pub struct Engine {
    take: Recording,
    /// Number of recorded frames, for cheap polling.
    frames: usize,
    recording: bool,
    playing: bool,
    play_pos: usize,
    play_generation: u64,
    input_levels: Levels,
    output_levels: Levels,
    error: Option<String>,
}

impl View for Engine {
    type V = EngineState;

    closed spec fn view(&self) -> EngineState {
        EngineState {
            samples: self.take@,
            recording: self.recording,
            playing: self.playing,
            play_pos: self.play_pos as nat,
            generation: self.play_generation,
            input: self.input_levels.frame(),
            output: self.output_levels.frame(),
            error: match self.error {
                Some(e) => Some(e@),
                None => None,
            },
        }
    }
}

impl Engine {
    /// The recording is sound, and the frame count mirrors it.
    pub closed spec fn wf(&self) -> bool {
        &&& self.take.wf()
        &&& self.take@.len() % 2 == 0
        &&& self.frames == self.take@.len() / 2
    }

    /// A sound engine holds whole frames, no more than memory does.
    pub proof fn holds_whole_frames(&self)
        requires
            self.wf(),
        ensures
            self@.samples.len() % 2 == 0,
            self@.samples.len() <= usize::MAX,
            self@.frames() <= usize::MAX,
    {
        self.take.holds_whole_frames();
    }

    pub fn new() -> (engine: Engine)
        ensures
            engine.wf(),
            engine@ == EngineState::initial(),
    {
        Engine {
            take: Recording::default(),
            frames: 0,
            recording: false,
            playing: false,
            play_pos: 0,
            play_generation: 0,
            input_levels: Levels::default(),
            output_levels: Levels::default(),
            error: None,
        }
    }

    /// The recording.
    pub fn take(&self) -> (take: &Recording)
        requires
            self.wf(),
        ensures
            take.wf(),
            take@ == self@.samples,
            self@.samples.len() % 2 == 0,
    {
        &self.take
    }

    /// Number of recorded frames.
    pub fn frames(&self) -> (n: usize)
        requires
            self.wf(),
        ensures
            n == self@.frames(),
    {
        self.frames
    }

    pub fn is_recording(&self) -> (b: bool)
        ensures
            b == self@.recording,
    {
        self.recording
    }

    pub fn is_playing(&self) -> (b: bool)
        ensures
            b == self@.playing,
    {
        self.playing
    }

    /// Frame of the recording that is being played.
    pub fn play_pos(&self) -> (frame: usize)
        ensures
            frame == self@.play_pos,
    {
        self.play_pos
    }

    /// Level of the input.
    pub fn input_levels(&self) -> (levels: Levels)
        ensures
            levels.frame() == self@.input,
    {
        self.input_levels
    }

    /// Level of what is being played.
    pub fn output_levels(&self) -> (levels: Levels)
        ensures
            levels.frame() == self@.output,
    {
        self.output_levels
    }

    /// What the window shows.
    pub fn status(&self) -> (s: Status)
        requires
            self.wf(),
        ensures
            s.shows(self@),
    {
        Status {
            frames: self.frames,
            recording: self.recording,
            playing: self.playing,
            play_pos: self.play_pos,
        }
    }

    /// The level that the meter shows: of the output while playing, else of the
    /// input.
    pub fn meter_levels(&self) -> (levels: Levels)
        ensures
            levels.frame() == self@.metered(),
    {
        if self.playing {
            self.output_levels
        } else {
            self.input_levels
        }
    }

    /// Fetches the last error, which is then forgotten.
    pub fn take_error(&mut self) -> (error: Option<String>)
        requires
            old(self).wf(),
        ensures
            final(self).wf(),
            final(self)@ == (EngineState { error: None, ..old(self)@ }),
            error is Some <==> old(self)@.error is Some,
            error matches Some(e) ==> old(self)@.error == Some(e@),
    {
        self.error.take()
    }

    /// Notes `prefix` and `reason` as the last error.
    fn set_error(&mut self, prefix: &str, reason: &String)
        requires
            old(self).wf(),
        ensures
            final(self).wf(),
            final(self)@ == old(self)@.failed(prefix@ + reason@),
    {
        let mut text = prefix.to_owned();
        text.append(reason.as_str());
        self.error = Some(text);
    }

    /// Starts recording, or stops it.
    pub fn toggle_recording(&mut self)
        requires
            old(self).wf(),
        ensures
            final(self).wf(),
            final(self)@ == old(self)@.recording_toggled(),
    {
        if self.recording {
            self.stop_recording();
        } else {
            self.start_recording();
        }
    }

    /// Starts recording; playback is stopped.
    pub fn start_recording(&mut self)
        requires
            old(self).wf(),
        ensures
            final(self).wf(),
            final(self)@ == old(self)@.recording_started(),
    {
        self.stop_playback();
        self.recording = true;
    }

    pub fn stop_recording(&mut self)
        requires
            old(self).wf(),
        ensures
            final(self).wf(),
            final(self)@ == old(self)@.recording_stopped(),
    {
        self.recording = false;
    }

    /// Drops everything recorded; playback and recording are stopped.
    pub fn clear(&mut self)
        requires
            old(self).wf(),
        ensures
            final(self).wf(),
            final(self)@ == old(self)@.cleared(),
    {
        self.stop_playback();
        self.stop_recording();
        self.take.clear();
        self.frames = 0;
    }

    /// Copy of the recording as interleaved samples for frames `[start, end)`.
    pub fn slice(&self, start: usize, end: usize) -> (part: Vec<Sample>)
        requires
            self.wf(),
        ensures
            part@ == frame_range(self@.samples, start as int, end as int),
    {
        self.take.slice(start, end)
    }

    pub fn stop_playback(&mut self)
        requires
            old(self).wf(),
        ensures
            final(self).wf(),
            final(self)@ == old(self)@.playback_stopped(),
    {
        self.play_generation = self.play_generation.wrapping_add(1);
        self.playing = false;
        self.output_levels.store(Sample { bits: 0 }, Sample { bits: 0 });
    }

    /// Starts (or restarts) playback of frames `[start, end)`. The request that comes
    /// back is for the caller to run; without any frame to play there is none.
    pub fn play(&mut self, start: usize, end: usize) -> (job: Option<Playback>)
        requires
            old(self).wf(),
        ensures
            final(self).wf(),
            play_outcome(old(self)@, start as nat, end as nat, job, final(self)@),
    {
        let data = self.slice(start, end);
        if data.len() == 0 {
            return None;
        }
        self.play_generation = self.play_generation.wrapping_add(1);
        self.play_pos = start;
        self.playing = true;
        Some(Playback { data, start, generation: self.play_generation, sent: 0 })
    }

    /// Takes in what happened in the capture loop and says what it does next.
    pub fn capture_step(&mut self, event: CaptureEvent) -> (action: CaptureAction)
        requires
            old(self).wf(),
            event matches CaptureEvent::Read(chunk) ==> {
                &&& chunk@.len() % 2 == 0
                &&& old(self)@.recording ==> old(self)@.samples.len() + chunk@.len() <= usize::MAX
            },
        ensures
            final(self).wf(),
            (final(self)@, action) == captured(old(self)@, event),
    {
        match event {
            CaptureEvent::Opened => CaptureAction::Read,
            CaptureEvent::OpenFailed(e) => {
                self.set_error("PulseAudio capture unavailable: ", &e);
                self.input_levels.store(Sample { bits: 0 }, Sample { bits: 0 });
                CaptureAction::Reopen { millis: REOPEN_MILLIS }
            },
            CaptureEvent::Read(chunk) => {
                let (l, r) = peaks(chunk.as_slice());
                self.input_levels.store(l, r);
                if self.recording {
                    self.take.append(chunk.as_slice());
                    self.frames = self.take.frames();
                }
                CaptureAction::Read
            },
            CaptureEvent::ReadFailed(e) => {
                self.set_error("PulseAudio read failed: ", &e);
                CaptureAction::Reopen { millis: RETRY_MILLIS }
            },
        }
    }

    /// Takes in what happened in the playback loop of `job` and says what it does
    /// next.
    pub fn playback_step(&mut self, job: &mut Playback, event: PlaybackEvent) -> (action:
        PlaybackAction)
        requires
            old(self).wf(),
            old(job).wf(),
        ensures
            final(self).wf(),
            final(job).wf(),
            final(job)@ == job_after(old(job)@, event),
            (final(self)@, action) == played(old(self)@, old(job)@, event),
    {
        match event {
            PlaybackEvent::Opened => self.next_chunk(job),
            PlaybackEvent::OpenFailed(e) => {
                self.set_error("PulseAudio playback unavailable: ", &e);
                self.finish_playback(job.generation);
                PlaybackAction::Stop
            },
            PlaybackEvent::Wrote => {
                if job.data.len() - job.sent >= CHUNK_SAMPLES {
                    job.sent = job.sent + CHUNK_SAMPLES;
                } else {
                    job.sent = job.data.len();
                }
                self.next_chunk(job)
            },
            PlaybackEvent::WriteFailed(e) => {
                self.set_error("PulseAudio write failed: ", &e);
                self.wind_down(job)
            },
            PlaybackEvent::Drained => {
                self.finish_playback(job.generation);
                PlaybackAction::Stop
            },
        }
    }

    fn next_chunk(&mut self, job: &Playback) -> (action: PlaybackAction)
        requires
            old(self).wf(),
            job.wf(),
        ensures
            final(self).wf(),
            (final(self)@, action) == chunk_due(old(self)@, job@),
    {
        if job.sent >= job.data.len() {
            return self.wind_down(job);
        }
        if self.play_generation != job.generation {
            return PlaybackAction::Flush;
        }
        let from: usize = job.sent;
        let to: usize = if job.data.len() - from >= CHUNK_SAMPLES {
            from + CHUNK_SAMPLES
        } else {
            job.data.len()
        };
        let part = job.chunk(from, to);
        let (l, r) = peaks(part.as_slice());
        self.output_levels.store(l, r);
        self.play_pos = job.start + from / CHANNELS;
        PlaybackAction::Write { from, to }
    }

    fn wind_down(&mut self, job: &Playback) -> (action: PlaybackAction)
        requires
            old(self).wf(),
        ensures
            final(self).wf(),
            (final(self)@, action) == wound_down(old(self)@, job@),
    {
        if self.play_generation == job.generation {
            PlaybackAction::Drain
        } else {
            self.finish_playback(job.generation);
            PlaybackAction::Stop
        }
    }

    /// Turns the engine idle, if `generation` is the most recent playback.
    pub fn finish_playback(&mut self, generation: u64)
        requires
            old(self).wf(),
        ensures
            final(self).wf(),
            final(self)@ == old(self)@.playback_finished(generation),
    {
        if self.play_generation == generation {
            self.playing = false;
            self.output_levels.store(Sample { bits: 0 }, Sample { bits: 0 });
        }
    }
}

/// Playing or stopping makes every earlier request stale.
pub proof fn play_and_stop_outdate_requests(s: EngineState, start: nat)
    ensures
        s.play_begun(start).generation != s.generation,
        s.playback_stopped().generation != s.generation,
        s.recording_started().generation != s.generation,
        s.cleared().generation != s.generation,
{
}

/// The loop of a stale request writes nothing more, and leaves the recording, the
/// playhead, the meter and whether the engine plays as they are.
pub proof fn stale_request_is_harmless(s: EngineState, job: PlaybackState, event: PlaybackEvent)
    requires
        s.generation != job.generation,
    ensures
        ({
            let (after, action) = played(s, job, event);
            &&& action == PlaybackAction::Flush || action == PlaybackAction::Stop
            &&& after == (EngineState { error: after.error, ..s })
        }),
{
}

/// The most recent request, once heard to its end or unable to start, turns the engine
/// idle.
pub proof fn finished_request_ends_playback(s: EngineState, job: PlaybackState, reason: String)
    requires
        s.generation == job.generation,
    ensures
        !played(s, job, PlaybackEvent::Drained).0.playing,
        !played(s, job, PlaybackEvent::OpenFailed(reason)).0.playing,
        played(s, job, PlaybackEvent::Drained).0.output == silence(),
        played(s, job, PlaybackEvent::OpenFailed(reason)).0.output == silence(),
{
}

/// The samples that the loop of a request writes, chunk after chunk, as long as the
/// request stays the most recent one and writing does not fail.
pub open spec fn writes(job: PlaybackState) -> Seq<Sample>
    decreases job.data.len() - job.sent,
{
    if job.sent >= job.data.len() {
        Seq::empty()
    } else {
        job.data.subrange(job.sent as int, job.chunk_end() as int) + writes(
            job_after(job, PlaybackEvent::Wrote),
        )
    }
}

/// A request that stays the most recent one is written to its end, every sample once
/// and in order, and is then drained.
pub proof fn request_is_played_whole(s: EngineState, job: PlaybackState)
    requires
        s.generation == job.generation,
        job.valid(),
    ensures
        writes(job) == job.data.skip(job.sent as int),
        chunk_due(s, job).1 == (if job.sent < job.data.len() {
            PlaybackAction::Write { from: job.sent as usize, to: job.chunk_end() as usize }
        } else {
            PlaybackAction::Drain
        }),
        chunk_due(s, job).0.generation == s.generation,
        job_after(job, PlaybackEvent::Wrote).valid(),
    decreases job.data.len() - job.sent,
{
    if job.sent < job.data.len() {
        let next = job_after(job, PlaybackEvent::Wrote);
        request_is_played_whole(s, next);
        assert(job.data.subrange(job.sent as int, job.chunk_end() as int) + job.data.skip(
            next.sent as int,
        ) =~= job.data.skip(job.sent as int));
    } else {
        assert(job.data.skip(job.sent as int) =~= Seq::empty());
    }
}

/// While a request is written, the playhead is inside the part that was asked for.
pub proof fn playhead_stays_in_clip(s: EngineState, start: nat, end: nat, sent: nat)
    requires
        s.samples.len() % 2 == 0,
        s.can_play(start, end),
        sent % 2 == 0,
        sent < request(s, start, end).data.len(),
    ensures
        ({
            let job = PlaybackState { sent, ..request(s, start, end) };
            let after = chunk_due(s.play_begun(start), job).0;
            &&& start <= after.play_pos < end
            &&& after.play_pos < s.frames()
        }),
{
}

/// Capturing never loses anything: the recording keeps what it has, and grows by
/// exactly what was read, and only while recording.
pub proof fn capture_only_appends(s: EngineState, event: CaptureEvent)
    ensures
        s.samples.is_prefix_of(captured(s, event).0.samples),
        !s.recording ==> captured(s, event).0.samples == s.samples,
        !(event is Read) ==> captured(s, event).0.samples == s.samples,
        event matches CaptureEvent::Read(chunk) ==> s.recording ==> captured(s, event).0.samples
            == s.samples + chunk@,
{
}

/// Playback never changes what was recorded, nor whether it is being recorded.
pub proof fn playback_keeps_recording(s: EngineState, job: PlaybackState, event: PlaybackEvent)
    ensures
        played(s, job, event).0.samples == s.samples,
        played(s, job, event).0.recording == s.recording,
{
}

/// Starting to record stops playback, and a new take begins behind what is there.
pub proof fn recording_stops_playback_and_keeps_take(s: EngineState)
    ensures
        s.recording_started().recording,
        !s.recording_started().playing,
        s.recording_started().samples == s.samples,
        s.recording_stopped().samples == s.samples,
        s.recording_toggled().recording != s.recording,
{
}

/// After clearing there is nothing recorded and nothing goes on.
pub proof fn clear_leaves_idle_engine(s: EngineState)
    ensures
        s.cleared().frames() == 0,
        !s.cleared().recording,
        !s.cleared().playing,
{
}

/// A new engine has recorded nothing, does nothing, and has nothing to report.
pub proof fn new_engine_has_nothing()
    ensures
        ({
            let s = EngineState::initial();
            &&& s.samples.len() == 0
            &&& !s.recording
            &&& !s.playing
            &&& s.play_pos == 0
            &&& s.error is None
            &&& s.input.l.bits == 0 && s.input.r.bits == 0
            &&& s.output.l.bits == 0 && s.output.r.bits == 0
        }),
{
}

/// The number of frames is that of pairs of samples, and the status shows it.
pub proof fn status_shows_the_engine(status: Status, s: EngineState)
    requires
        status.shows(s),
    ensures
        2 * s.frames() <= s.samples.len() <= 2 * s.frames() + 1,
        2 * status.frames <= s.samples.len() <= 2 * status.frames + 1,
        status.recording == s.recording,
        status.playing == s.playing,
        status.play_pos == s.play_pos,
{
}

/// Stopping playback turns playing off, silences the output and outdates every request; it
/// changes nothing else.
pub proof fn stopping_playback(s: EngineState)
    ensures
        ({
            let t = s.playback_stopped();
            &&& !t.playing
            &&& t.output.l.bits == 0 && t.output.r.bits == 0
            &&& t.generation as int == (s.generation + 1) % 0x1_0000_0000_0000_0000
            &&& t.samples == s.samples && t.recording == s.recording
            &&& t.play_pos == s.play_pos && t.input == s.input && t.error == s.error
        }),
{
}

/// Starting to record turns recording on and stops playback; stopping turns it off and
/// changes nothing else; toggling does the one or the other.
pub proof fn starting_and_stopping_recording(s: EngineState)
    ensures
        ({
            let t = s.recording_started();
            &&& t.recording && !t.playing
            &&& t.output.l.bits == 0 && t.output.r.bits == 0
            &&& t.generation as int == (s.generation + 1) % 0x1_0000_0000_0000_0000
            &&& t.samples == s.samples && t.play_pos == s.play_pos && t.input == s.input
                && t.error == s.error
        }),
        ({
            let t = s.recording_stopped();
            &&& !t.recording
            &&& t.samples == s.samples && t.playing == s.playing && t.play_pos == s.play_pos
                && t.generation == s.generation && t.input == s.input && t.output == s.output
                && t.error == s.error
        }),
        s.recording ==> s.recording_toggled() == s.recording_stopped(),
        !s.recording ==> s.recording_toggled() == s.recording_started(),
{
}

/// Clearing drops every sample, stops recording and playback, and outdates every request;
/// the input level and an error stay.
pub proof fn clearing_the_recording(s: EngineState)
    ensures
        ({
            let t = s.cleared();
            &&& t.samples.len() == 0
            &&& !t.recording && !t.playing
            &&& t.output.l.bits == 0 && t.output.r.bits == 0
            &&& t.generation as int == (s.generation + 1) % 0x1_0000_0000_0000_0000
            &&& t.play_pos == s.play_pos && t.input == s.input && t.error == s.error
        }),
{
}

/// The clip of a request is exactly the frames that were asked for, as far as they were
/// recorded, from its first sample on.
pub proof fn request_is_for_the_asked_frames(s: EngineState, start: nat, end: nat)
    requires
        s.samples.len() % 2 == 0,
    ensures
        s.can_play(start, end) <==> start < end && 2 * start < s.samples.len(),
        s.can_play(start, end) ==> {
            let until = if 2 * end < s.samples.len() {
                2 * end
            } else {
                s.samples.len()
            };
            let job = request(s, start, end);
            &&& job.data == s.samples.subrange(2 * start as int, until as int)
            &&& job.start == start
            &&& job.sent == 0
            &&& job.generation as int == (s.generation + 1) % 0x1_0000_0000_0000_0000
        },
{
}

/// Playing starts a request for the asked frames if there are any, with the playhead at
/// the first and the engine playing it, and does nothing else; without any frame it does
/// nothing at all.
pub proof fn playing_starts_the_asked_frames(
    s: EngineState,
    start: nat,
    end: nat,
    job: Option<Playback>,
    after: EngineState,
)
    requires
        s.samples.len() % 2 == 0,
        play_outcome(s, start, end, job, after),
    ensures
        job is Some <==> start < end && 2 * start < s.samples.len(),
        job is None ==> after == s,
        job matches Some(j) ==> {
            let until = if 2 * end < s.samples.len() {
                2 * end
            } else {
                s.samples.len()
            };
            &&& j@.data == s.samples.subrange(2 * start as int, until as int)
            &&& j@.start == start
            &&& j@.sent == 0
            &&& j@.generation == after.generation
            &&& after.generation as int == (s.generation + 1) % 0x1_0000_0000_0000_0000
            &&& after.playing
            &&& after.play_pos == start
            &&& after.samples == s.samples && after.recording == s.recording && after.input
                == s.input && after.output == s.output && after.error == s.error
        },
{
    request_is_for_the_asked_frames(s, start, end);
}

/// The end of the most recent playback turns the engine idle and silent; that of any other
/// changes nothing.
pub proof fn finishing_playback(s: EngineState, generation: u64)
    ensures
        ({
            let t = s.playback_finished(generation);
            &&& generation != s.generation ==> t == s
            &&& generation == s.generation ==> {
                &&& !t.playing
                &&& t.output.l.bits == 0 && t.output.r.bits == 0
                &&& t.samples == s.samples && t.recording == s.recording && t.play_pos
                    == s.play_pos && t.generation == s.generation && t.input == s.input && t.error
                    == s.error
            }
        }),
{
}

/// What the capture loop reads is measured, and is appended whole while recording; a
/// failure is reported, and tried again after a wait of two seconds, or of half a second if
/// the input could be opened. Nothing else changes.
pub proof fn capturing(s: EngineState, chunk: Vec<Sample>, reason: String)
    ensures
        captured(s, CaptureEvent::Opened) == (s, CaptureAction::Read),
        ({
            let (t, action) = captured(s, CaptureEvent::Read(chunk));
            &&& action == CaptureAction::Read
            &&& t.input == peak_levels(frames_of(chunk@))
            &&& t.samples == (if s.recording {
                s.samples + chunk@
            } else {
                s.samples
            })
            &&& t.recording == s.recording && t.playing == s.playing && t.play_pos == s.play_pos
                && t.generation == s.generation && t.output == s.output && t.error == s.error
        }),
        ({
            let (t, action) = captured(s, CaptureEvent::OpenFailed(reason));
            &&& action == CaptureAction::Reopen { millis: 2000 }
            &&& t.error == Some("PulseAudio capture unavailable: "@ + reason@)
            &&& t.input.l.bits == 0 && t.input.r.bits == 0
            &&& t.samples == s.samples && t.recording == s.recording && t.playing == s.playing
                && t.play_pos == s.play_pos && t.generation == s.generation && t.output == s.output
        }),
        ({
            let (t, action) = captured(s, CaptureEvent::ReadFailed(reason));
            &&& action == CaptureAction::Reopen { millis: 500 }
            &&& t.error == Some("PulseAudio read failed: "@ + reason@)
            &&& t.samples == s.samples && t.recording == s.recording && t.playing == s.playing
                && t.play_pos == s.play_pos && t.generation == s.generation && t.input == s.input
                && t.output == s.output
        }),
{
}

/// As long as its request is the most recent one, a playback loop writes the next 480
/// frames, or what is left, from where it stopped; the playhead stands at the first of them
/// and the meter shows them. A written chunk is not written again.
pub proof fn playing_a_chunk(s: EngineState, job: PlaybackState)
    requires
        job.valid(),
        job.sent < job.data.len(),
    ensures
        ({
            let to = if job.sent + 960 <= job.data.len() {
                job.sent + 960
            } else {
                job.data.len()
            };
            let (t, action) = played(s, job, PlaybackEvent::Opened);
            let next = job_after(job, PlaybackEvent::Wrote);
            &&& s.generation == job.generation ==> {
                &&& action == PlaybackAction::Write { from: job.sent as usize, to: to as usize }
                &&& t.play_pos == job.start + job.sent / 2
                &&& t.output == peak_levels(
                    frames_of(job.data.subrange(job.sent as int, to as int)),
                )
                &&& t.samples == s.samples && t.recording == s.recording && t.playing == s.playing
                    && t.generation == s.generation && t.input == s.input && t.error == s.error
            }
            &&& s.generation != job.generation ==> t == s && action == PlaybackAction::Flush
            &&& next.sent == to && next.data == job.data && next.start == job.start
                && next.generation == job.generation
            &&& played(s, job, PlaybackEvent::Wrote) == played(s, next, PlaybackEvent::Opened)
        }),
{
}

/// Once all is written the most recent request is drained, and any other just ends; so it
/// is after writing failed, which is reported. Being drained, or not being able to start,
/// ends playback if the request is the most recent one.
pub proof fn ending_playback(s: EngineState, job: PlaybackState, reason: String)
    ensures
        job.sent >= job.data.len() ==> {
            let (t, action) = played(s, job, PlaybackEvent::Opened);
            &&& t == s
            &&& s.generation == job.generation ==> action == PlaybackAction::Drain
            &&& s.generation != job.generation ==> action == PlaybackAction::Stop
        },
        ({
            let (t, action) = played(s, job, PlaybackEvent::WriteFailed(reason));
            &&& t.error == Some("PulseAudio write failed: "@ + reason@)
            &&& t == (EngineState { error: t.error, ..s })
            &&& s.generation == job.generation ==> action == PlaybackAction::Drain
            &&& s.generation != job.generation ==> action == PlaybackAction::Stop
        }),
        ({
            let (t, action) = played(s, job, PlaybackEvent::OpenFailed(reason));
            &&& action == PlaybackAction::Stop
            &&& t.error == Some("PulseAudio playback unavailable: "@ + reason@)
            &&& s.generation != job.generation ==> t == (EngineState { error: t.error, ..s })
            &&& s.generation == job.generation ==> t == (EngineState {
                error: t.error,
                playing: false,
                output: Frame { l: Sample { bits: 0 }, r: Sample { bits: 0 } },
                ..s
            })
        }),
        ({
            let (t, action) = played(s, job, PlaybackEvent::Drained);
            &&& action == PlaybackAction::Stop
            &&& s.generation != job.generation ==> t == s
            &&& s.generation == job.generation ==> t == (EngineState {
                playing: false,
                output: Frame { l: Sample { bits: 0 }, r: Sample { bits: 0 } },
                ..s
            })
        }),
        job_after(job, PlaybackEvent::Opened) == job,
        job_after(job, PlaybackEvent::Drained) == job,
        job_after(job, PlaybackEvent::OpenFailed(reason)) == job,
        job_after(job, PlaybackEvent::WriteFailed(reason)) == job,
{
}

/// The meter shows what is played while something is, and else what comes in.
pub proof fn meter_shows_the_active_side(s: EngineState)
    ensures
        s.playing ==> s.metered() == s.output,
        !s.playing ==> s.metered() == s.input,
{
}

} // verus!
