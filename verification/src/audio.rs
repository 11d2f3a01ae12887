//! The recording, its levels, and the bytes in which audio is streamed.

use crate::peaks::PeakPyramid;
use crate::sample::{
    frames_of, frames_of_concatenation, greater, magnitude, zero, Frame, Sample,
};
use vstd::prelude::*;

verus! {

/// Frames per second.
pub const SAMPLE_RATE: u32 = 48_000;

/// Samples per frame.
pub const CHANNELS: usize = 2;

/// Bytes per sample on the wire.
pub const SAMPLE_BYTES: usize = 4;

/// Capture and playback chunk size in frames (10 ms at 48 kHz).
pub const CHUNK_FRAMES: usize = 480;

/// Samples of a full chunk.
pub const CHUNK_SAMPLES: usize = 960;

/// Wait before the input is opened again after it could not be opened.
pub const REOPEN_MILLIS: u64 = 2000;

/// Wait before the input is opened again after reading failed.
pub const RETRY_MILLIS: u64 = 500;

/// Size of `frames` frames in bytes, in the 32-bit counter of the sound server.
pub fn frames_to_bytes(frames: usize) -> (bytes: u32)
    requires
        frames * CHANNELS * SAMPLE_BYTES <= usize::MAX,
    ensures
        bytes == (frames * CHANNELS * SAMPLE_BYTES) % 0x1_0000_0000,
{
    let bytes: u64 = (frames * CHANNELS * SAMPLE_BYTES) as u64;
    (bytes % 0x1_0000_0000) as u32
}

/// The four bytes of a sample, in little-endian order.
pub open spec fn sample_to_bytes(s: Sample) -> Seq<u8> {
    seq![
        (s.bits % 256) as u8,
        (s.bits / 256 % 256) as u8,
        (s.bits / 65536 % 256) as u8,
        (s.bits / 16777216) as u8,
    ]
}

/// The sample whose bytes stand at `at`.
pub open spec fn sample_at(bytes: Seq<u8>, at: int) -> Sample {
    Sample {
        bits: (bytes[at] + 256 * bytes[at + 1] + 65536 * bytes[at + 2] + 16777216 * bytes[at
            + 3]) as u32,
    }
}

/// Samples as the bytes of a little-endian stream.
pub open spec fn stream_bytes(samples: Seq<Sample>) -> Seq<u8> {
    Seq::new(4 * samples.len(), |i: int| sample_to_bytes(samples[i / 4])[i % 4])
}

/// The whole samples of a little-endian stream.
pub open spec fn stream_samples(bytes: Seq<u8>) -> Seq<Sample> {
    Seq::new(bytes.len() / 4, |i: int| sample_at(bytes, 4 * i))
}

/// What is written to the stream is what is read from it.
pub proof fn stream_reads_back(samples: Seq<Sample>)
    ensures
        stream_samples(stream_bytes(samples)) == samples,
{
    let bytes = stream_bytes(samples);
    assert forall|i: int| 0 <= i < samples.len() implies stream_samples(bytes)[i] == samples[i] by {
        let j = 4 * i;
        assert(j / 4 == i && (j + 1) / 4 == i && (j + 2) / 4 == i && (j + 3) / 4 == i);
        assert(j % 4 == 0 && (j + 1) % 4 == 1 && (j + 2) % 4 == 2 && (j + 3) % 4 == 3);
        assert(bytes[j] == sample_to_bytes(samples[i])[0]);
        assert(bytes[j + 1] == sample_to_bytes(samples[i])[1]);
        assert(bytes[j + 2] == sample_to_bytes(samples[i])[2]);
        assert(bytes[j + 3] == sample_to_bytes(samples[i])[3]);
    }
    assert(stream_samples(bytes) =~= samples);
}

/// Samples as the bytes of a little-endian stream.
pub fn as_bytes(samples: &[Sample]) -> (bytes: Vec<u8>)
    ensures
        bytes@ == stream_bytes(samples@),
{
    let mut bytes: Vec<u8> = Vec::new();
    let mut i: usize = 0;
    while i < samples.len()
        invariant
            i <= samples@.len(),
            bytes@ == stream_bytes(samples@.take(i as int)),
        decreases samples@.len() - i,
    {
        let bits: u32 = samples[i].bits;
        let ghost before = bytes@;
        bytes.push((bits % 256) as u8);
        bytes.push((bits / 256 % 256) as u8);
        bytes.push((bits / 65536 % 256) as u8);
        bytes.push((bits / 16777216) as u8);
        i = i + 1;
        assert(bytes@ =~= before + sample_to_bytes(samples@[i - 1]));
        assert(bytes@ =~= stream_bytes(samples@.take(i as int)));
    }
    assert(samples@.take(i as int) =~= samples@);
    bytes
}

/// The whole samples of a little-endian stream.
pub fn from_bytes(bytes: &[u8]) -> (samples: Vec<Sample>)
    ensures
        samples@ == stream_samples(bytes@),
{
    let total: usize = bytes.len();
    let count: usize = total / 4;
    let mut samples: Vec<Sample> = Vec::new();
    let mut i: usize = 0;
    while i < count
        invariant
            total == bytes@.len(),
            count == total / 4,
            i <= count,
            samples@ == stream_samples(bytes@).take(i as int),
        decreases count - i,
    {
        let at: usize = 4 * i;
        let bits: u32 = bytes[at] as u32 + 256 * (bytes[at + 1] as u32) + 65536 * (bytes[at
            + 2] as u32) + 16777216 * (bytes[at + 3] as u32);
        samples.push(Sample { bits });
        i = i + 1;
        assert(samples@ =~= stream_samples(bytes@).take(i as int));
    }
    assert(stream_samples(bytes@).take(count as int) =~= stream_samples(bytes@));
    samples
}

/// Largest magnitude of each channel over some frames; zero over none.
pub open spec fn peak_levels(frames: Seq<Frame>) -> Frame
    decreases frames.len(),
{
    if frames.len() == 0 {
        Frame { l: zero(), r: zero() }
    } else {
        let before = peak_levels(frames.drop_last());
        Frame {
            l: greater(before.l, magnitude(frames.last().l)),
            r: greater(before.r, magnitude(frames.last().r)),
        }
    }
}

/// Largest magnitude of each channel.
pub fn peaks(interleaved: &[Sample]) -> (levels: (Sample, Sample))
    ensures
        (Frame { l: levels.0, r: levels.1 }) == peak_levels(frames_of(interleaved@)),
{
    let ghost frames = frames_of(interleaved@);
    let total: usize = interleaved.len();
    let count: usize = total / CHANNELS;
    let mut l = Sample { bits: 0 };
    let mut r = Sample { bits: 0 };
    let mut i: usize = 0;
    while i < count
        invariant
            total == interleaved@.len(),
            count == total / 2,
            i <= count,
            frames == frames_of(interleaved@),
            (Frame { l, r }) == peak_levels(frames.take(i as int)),
        decreases count - i,
    {
        proof {
            assert(frames.take(i + 1).drop_last() =~= frames.take(i as int));
        }
        l = l.max(interleaved[i * CHANNELS].abs());
        r = r.max(interleaved[i * CHANNELS + 1].abs());
        i = i + 1;
    }
    assert(frames.take(count as int) =~= frames);
    (l, r)
}

/// A meter shows numbers that are not negative.
proof fn lemma_levels_are_numbers(frames: Seq<Frame>)
    ensures
        !peak_levels(frames).l.nan(),
        !peak_levels(frames).r.nan(),
        peak_levels(frames).l.order() >= 0,
        peak_levels(frames).r.order() >= 0,
    decreases frames.len(),
{
    if frames.len() > 0 {
        lemma_levels_are_numbers(frames.drop_last());
    }
}

/// The levels of a chunk are at least the magnitude of each of its samples, and are
/// themselves numbers that are not negative.
pub proof fn levels_bound_every_frame(frames: Seq<Frame>, i: int)
    requires
        0 <= i < frames.len(),
    ensures
        !peak_levels(frames).l.nan(),
        !peak_levels(frames).r.nan(),
        0 <= peak_levels(frames).l.order(),
        0 <= peak_levels(frames).r.order(),
        !frames[i].l.nan() ==> magnitude(frames[i].l).order() <= peak_levels(frames).l.order(),
        !frames[i].r.nan() ==> magnitude(frames[i].r).order() <= peak_levels(frames).r.order(),
    decreases frames.len(),
{
    lemma_levels_are_numbers(frames);
    lemma_levels_are_numbers(frames.drop_last());
    if i < frames.len() - 1 {
        levels_bound_every_frame(frames.drop_last(), i);
    }
}

/// Peak level per channel, as last measured.
#[derive(Clone, Copy, Debug, PartialEq, Eq, Structural)]
pub struct Levels {
    pub l: Sample,
    pub r: Sample,
}

impl Levels {
    /// The levels as one frame.
    pub open spec fn frame(self) -> Frame {
        Frame { l: self.l, r: self.r }
    }

    pub fn store(&mut self, l: Sample, r: Sample)
        ensures
            *final(self) == (Levels { l, r }),
    {
        self.l = l;
        self.r = r;
    }

    pub fn load(&self) -> (levels: [Sample; CHANNELS])
        ensures
            levels@ == seq![self.l, self.r],
    {
        let levels = [self.l, self.r];
        assert(levels@ =~= seq![self.l, self.r]);
        levels
    }
}

impl Default for Levels {
    fn default() -> (levels: Levels)
        ensures
            levels == (Levels { l: zero(), r: zero() }),
    {
        Levels { l: Sample { bits: 0 }, r: Sample { bits: 0 } }
    }
}

/// The recording plus its peak cache; the two are always appended together.
///
/// Its view is the interleaved samples.
pub struct Recording {
    samples: Vec<Sample>,
    peaks: PeakPyramid,
}

impl View for Recording {
    type V = Seq<Sample>;

    closed spec fn view(&self) -> Seq<Sample> {
        self.samples@
    }
}

impl Recording {
    /// The recording is whole frames, and the cache has seen exactly them.
    pub closed spec fn wf(&self) -> bool {
        &&& self.samples@.len() % 2 == 0
        &&& self.peaks.wf()
        &&& self.peaks@ == frames_of(self.samples@)
    }

    /// A sound recording holds whole frames, no more than memory does.
    pub proof fn holds_whole_frames(&self)
        requires
            self.wf(),
        ensures
            self@.len() % 2 == 0,
            self@.len() <= usize::MAX,
    {
        assert(self.samples.len() == self.samples@.len());
    }

    /// The interleaved samples.
    pub fn samples(&self) -> (s: &Vec<Sample>)
        ensures
            s@ == self@,
            self.wf() ==> self@.len() % 2 == 0,
    {
        &self.samples
    }

    pub fn peaks(&self) -> (p: &PeakPyramid)
        requires
            self.wf(),
        ensures
            p.wf(),
            p@ == frames_of(self@),
    {
        &self.peaks
    }

    /// Number of whole frames.
    pub fn frames(&self) -> (n: usize)
        ensures
            n == self@.len() / 2,
    {
        self.samples.len() / CHANNELS
    }

    /// Appends interleaved frames.
    pub fn append(&mut self, chunk: &[Sample])
        requires
            old(self).wf(),
            chunk@.len() % 2 == 0,
            old(self)@.len() + chunk@.len() <= usize::MAX,
        ensures
            final(self).wf(),
            final(self)@ == old(self)@ + chunk@,
    {
        proof {
            frames_of_concatenation(self.samples@, chunk@);
        }
        self.samples.extend_from_slice(chunk);
        assert(self.samples@ =~= old(self)@ + chunk@);
        self.peaks.push(chunk);
    }

    /// Drops every frame.
    pub fn clear(&mut self)
        ensures
            final(self).wf(),
            final(self)@ == Seq::<Sample>::empty(),
    {
        self.samples.clear();
        self.peaks.clear();
        assert(frames_of(self.samples@) =~= Seq::empty());
    }

    /// Copy of frames `[start, end)`, as far as they exist.
    pub fn slice(&self, start: usize, end: usize) -> (part: Vec<Sample>)
        ensures
            part@ == frame_range(self@, start as int, end as int),
    {
        let total: usize = self.samples.len();
        let frames: usize = self.frames();
        let end: usize = if end < frames { end } else { frames };
        let start: usize = if start < end { start } else { end };
        let mut part: Vec<Sample> = Vec::with_capacity((end - start) * CHANNELS);
        let mut i: usize = start * CHANNELS;
        while i < end * CHANNELS
            invariant
                start <= end,
                end <= frames,
                frames == total / 2,
                total == self.samples@.len(),
                2 * start <= i <= 2 * end,
                part@ == self.samples@.subrange(2 * start as int, i as int),
            decreases 2 * end - i,
        {
            part.push(self.samples[i]);
            i = i + 1;
            assert(part@ =~= self.samples@.subrange(2 * start as int, i as int));
        }
        part
    }
}

/// The samples of frames `[start, end)`, as far as they exist.
pub open spec fn frame_range(samples: Seq<Sample>, start: int, end: int) -> Seq<Sample> {
    let frames = samples.len() as int / 2;
    let to = if end < frames {
        end
    } else {
        frames
    };
    let from = if start < to {
        start
    } else {
        to
    };
    samples.subrange(2 * from, 2 * to)
}

impl Default for Recording {
    fn default() -> (r: Recording)
        ensures
            r.wf(),
            r@ == Seq::<Sample>::empty(),
    {
        let r = Recording { samples: Vec::new(), peaks: PeakPyramid::default() };
        assert(frames_of(r.samples@) =~= Seq::empty());
        r
    }
}

/// The stream holds the four bytes of each sample, the lowest first: together they make up
/// its bit pattern.
pub proof fn stream_is_little_endian(samples: Seq<Sample>, i: int)
    requires
        0 <= i < samples.len(),
    ensures
        ({
            let b = stream_bytes(samples);
            &&& b.len() == 4 * samples.len()
            &&& b[4 * i] + 0x100 * b[4 * i + 1] + 0x1_0000 * b[4 * i + 2] + 0x100_0000 * b[4 * i
                + 3] == samples[i].bits
        }),
{
    let b = stream_bytes(samples);
    let j = 4 * i;
    assert(j / 4 == i && (j + 1) / 4 == i && (j + 2) / 4 == i && (j + 3) / 4 == i);
    assert(j % 4 == 0 && (j + 1) % 4 == 1 && (j + 2) % 4 == 2 && (j + 3) % 4 == 3);
    assert(b[j] == sample_to_bytes(samples[i])[0]);
    assert(b[j + 1] == sample_to_bytes(samples[i])[1]);
    assert(b[j + 2] == sample_to_bytes(samples[i])[2]);
    assert(b[j + 3] == sample_to_bytes(samples[i])[3]);
}

/// Every four bytes of a stream are the bit pattern of a sample, the lowest first; bytes
/// that are left over are none.
pub proof fn samples_are_read_in_fours(bytes: Seq<u8>, i: int)
    ensures
        4 * stream_samples(bytes).len() <= bytes.len() < 4 * stream_samples(bytes).len() + 4,
        0 <= i < stream_samples(bytes).len() ==> stream_samples(bytes)[i].bits == bytes[4 * i]
            + 0x100 * bytes[4 * i + 1] + 0x1_0000 * bytes[4 * i + 2] + 0x100_0000 * bytes[4 * i + 3],
{
}

/// The level of a channel is silence, or the magnitude of one of its samples.
pub proof fn levels_are_attained(frames: Seq<Frame>)
    ensures
        peak_levels(frames).l.bits == 0 || exists|i: int|
            0 <= i < frames.len() && peak_levels(frames).l == magnitude((#[trigger] frames[i]).l),
        peak_levels(frames).r.bits == 0 || exists|i: int|
            0 <= i < frames.len() && peak_levels(frames).r == magnitude((#[trigger] frames[i]).r),
    decreases frames.len(),
{
    if frames.len() > 0 {
        let rest = frames.drop_last();
        levels_are_attained(rest);
        let c = peak_levels(rest);
        assert(forall|i: int| 0 <= i < rest.len() ==> rest[i] == frames[i]);
        assert(frames[frames.len() - 1] == frames.last());
        if c.l.bits != 0 && peak_levels(frames).l == c.l {
            let i = choose|i: int| 0 <= i < rest.len() && c.l == magnitude((#[trigger] rest[i]).l);
            assert(c.l == magnitude(frames[i].l));
        }
        if c.r.bits != 0 && peak_levels(frames).r == c.r {
            let i = choose|i: int| 0 <= i < rest.len() && c.r == magnitude((#[trigger] rest[i]).r);
            assert(c.r == magnitude(frames[i].r));
        }
    }
}

/// The part of a recording between two frames is exactly the samples of the frames in
/// between; what lies past the end is left out, and nothing lies between a frame and an
/// earlier one.
pub proof fn part_is_frames_in_between(samples: Seq<Sample>, start: int, end: int)
    requires
        0 <= start,
        0 <= end,
    ensures
        start <= end <= samples.len() / 2 ==> frame_range(samples, start, end)
            == samples.subrange(2 * start, 2 * end),
        start <= samples.len() / 2 <= end ==> frame_range(samples, start, end)
            == samples.subrange(2 * start, 2 * (samples.len() as int / 2)),
        start >= end || start >= samples.len() / 2 ==> frame_range(samples, start, end).len() == 0,
{
}

/// Parts that adjoin make up the part from the first start to the last end.
pub proof fn adjoining_parts_join(samples: Seq<Sample>, a: int, b: int, c: int)
    requires
        0 <= a <= b <= c,
    ensures
        frame_range(samples, a, b) + frame_range(samples, b, c) == frame_range(samples, a, c),
{
    assert(frame_range(samples, a, b) + frame_range(samples, b, c) =~= frame_range(samples, a, c));
}

/// The format of the audio: 48000 stereo frames a second, in chunks of 10 ms, with waits of
/// two seconds and of half a second before the input is opened again.
pub proof fn audio_format()
    ensures
        SAMPLE_RATE == 48_000,
        CHANNELS == 2,
        SAMPLE_BYTES == 4,
        CHUNK_FRAMES * 100 == SAMPLE_RATE,
        CHUNK_SAMPLES == CHUNK_FRAMES * CHANNELS,
        REOPEN_MILLIS == 2000,
        RETRY_MILLIS == 500,
{
}

} // verus!
