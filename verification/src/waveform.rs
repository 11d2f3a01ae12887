//! Per-pixel-column peaks of the recording and SVG path generation for the
//! waveform view.

use crate::audio::Recording;
use crate::peaks::{summary, summary_comes_from_the_run, summary_encloses_every_frame, Column};
use crate::sample::{clamped, frames_of, zero, Frame, Sample, ONE, SIGN};
use crate::text::{decimal, push_decimal};
use crate::view::Real;
use vstd::prelude::*;

verus! {

/// The column of silence.
pub open spec fn flat_column() -> Column {
    Column { l_min: zero(), l_max: zero(), r_min: zero(), r_max: zero() }
}

/// The frame behind the last one of a column from `a` to `b`: at least one frame is
/// taken in, and none past the end of the recording.
pub open spec fn span_end(frames: nat, a: int, b: int) -> int {
    let end = if b > a {
        b
    } else {
        a + 1
    };
    if end < frames {
        end
    } else {
        frames as int
    }
}

/// The column that shows frames `a .. b`: flat past the end of the recording.
pub open spec fn column_of(frames: Seq<Frame>, a: int, b: int) -> Column {
    if a >= frames.len() {
        flat_column()
    } else {
        summary(frames.subrange(a, span_end(frames.len(), a, b)))
    }
}

/// How many of `columns` columns show a view of length `len`: none when the length is
/// zero or less.
pub open spec fn shown(len: Real, columns: nat) -> nat {
    if !len.nan() && len.order() <= 0 {
        0
    } else {
        columns
    }
}

/// How many of `columns` columns show a view of length `len`.
pub fn columns_shown(len: Real, columns: usize) -> (n: usize)
    ensures
        n == shown(len, columns as nat),
{
    if len.is_nan() || Real::from_bits(0).below(len) {
        columns
    } else {
        0
    }
}

/// Peaks of the columns that show a view of length `len`, cut into one span of frames per
/// column; a view of length zero or less has no columns. A span takes in at least the
/// frame it starts at; columns that fall past the end of the recording are flat (all
/// zeros).
pub fn column_peaks(rec: &Recording, len: Real, spans: &Vec<(usize, usize)>) -> (columns: Vec<
    Column,
>)
    requires
        rec.wf(),
    ensures
        columns@.len() == shown(len, spans@.len()),
        forall|i: int|
            0 <= i < columns@.len() ==> #[trigger] columns@[i] == column_of(
                frames_of(rec@),
                spans@[i].0 as int,
                spans@[i].1 as int,
            ),
{
    let ghost frames = frames_of(rec@);
    let total: usize = rec.frames();
    let count: usize = columns_shown(len, spans.len());
    let mut columns: Vec<Column> = Vec::with_capacity(count);
    let mut i: usize = 0;
    while i < count
        invariant
            rec.wf(),
            frames == frames_of(rec@),
            total == frames.len(),
            i <= count <= spans@.len(),
            columns@.len() == i,
            forall|j: int|
                0 <= j < i ==> #[trigger] columns@[j] == column_of(
                    frames,
                    spans@[j].0 as int,
                    spans@[j].1 as int,
                ),
        decreases count - i,
    {
        let (a, b) = spans[i];
        if a >= total {
            let silent = Sample { bits: 0 };
            columns.push(Column { l_min: silent, l_max: silent, r_min: silent, r_max: silent });
        } else {
            let end: usize = if b > a { b } else { a + 1 };
            let end: usize = if end < total { end } else { total };
            columns.push(rec.peaks().query(rec.samples().as_slice(), a, end));
        }
        i = i + 1;
    }
    columns
}

/// A column encloses every number among the samples it shows.
pub proof fn column_encloses_its_frames(frames: Seq<Frame>, a: int, b: int, i: int)
    requires
        0 <= a <= i < span_end(frames.len(), a, b),
    ensures
        ({
            let col = column_of(frames, a, b);
            &&& !frames[i].l.nan() ==> col.l_min.order() <= frames[i].l.order()
                <= col.l_max.order()
            &&& !frames[i].r.nan() ==> col.r_min.order() <= frames[i].r.order()
                <= col.r_max.order()
        }),
{
    let shown = frames.subrange(a, span_end(frames.len(), a, b));
    summary_encloses_every_frame(shown, i - a);
}

/// A column shows every frame from `a` up to `b`, as far as the recording goes: each
/// number among their samples lies between the column's minimum and maximum.
pub proof fn column_covers_every_frame_under_it(frames: Seq<Frame>, a: int, b: int, i: int)
    requires
        0 <= a <= i < b,
        i < frames.len(),
    ensures
        ({
            let col = column_of(frames, a, b);
            &&& !frames[i].l.nan() ==> col.l_min.order() <= frames[i].l.order()
                <= col.l_max.order()
            &&& !frames[i].r.nan() ==> col.r_min.order() <= frames[i].r.order()
                <= col.r_max.order()
        }),
        span_end(frames.len(), a, b) == (if b < frames.len() {
            b
        } else {
            frames.len() as int
        }),
{
    column_encloses_its_frames(frames, a, b, i);
}

/// A column shows nothing but the frames from `a` up to `b`: where one of their samples
/// on a channel is finite, both ends of the column on that channel are such samples.
pub proof fn column_shows_only_frames_under_it(frames: Seq<Frame>, a: int, b: int, i: int)
    requires
        0 <= a <= i < b,
        i < frames.len(),
    ensures
        ({
            let col = column_of(frames, a, b);
            let n = frames.len();
            &&& -0x7f7f_ffff <= frames[i].l.order() <= 0x7f7f_ffff ==> {
                &&& exists|j: int| a <= j < b && j < n && col.l_min == (#[trigger] frames[j]).l
                &&& exists|j: int| a <= j < b && j < n && col.l_max == (#[trigger] frames[j]).l
            }
            &&& -0x7f7f_ffff <= frames[i].r.order() <= 0x7f7f_ffff ==> {
                &&& exists|j: int| a <= j < b && j < n && col.r_min == (#[trigger] frames[j]).r
                &&& exists|j: int| a <= j < b && j < n && col.r_max == (#[trigger] frames[j]).r
            }
        }),
{
    let end = span_end(frames.len(), a, b);
    let shown = frames.subrange(a, end);
    let col = summary(shown);
    assert(shown[i - a] == frames[i]);
    summary_comes_from_the_run(shown, i - a);
    if -0x7f7f_ffff <= frames[i].l.order() <= 0x7f7f_ffff {
        let j = choose|j: int| 0 <= j < shown.len() && col.l_min == (#[trigger] shown[j]).l;
        let k = choose|k: int| 0 <= k < shown.len() && col.l_max == (#[trigger] shown[k]).l;
        assert(frames[a + j].l == col.l_min && frames[a + k].l == col.l_max);
    }
    if -0x7f7f_ffff <= frames[i].r.order() <= 0x7f7f_ffff {
        let j = choose|j: int| 0 <= j < shown.len() && col.r_min == (#[trigger] shown[j]).r;
        let k = choose|k: int| 0 <= k < shown.len() && col.r_max == (#[trigger] shown[k]).r;
        assert(frames[a + j].r == col.r_min && frames[a + k].r == col.r_max);
    }
}

/// A column that is narrower than a frame shows the frame it starts at, and one past the
/// end of the recording shows zeros.
pub proof fn narrow_and_late_columns(frames: Seq<Frame>, a: int, b: int)
    requires
        0 <= a,
    ensures
        a >= frames.len() ==> {
            let col = column_of(frames, a, b);
            col.l_min.bits == 0 && col.l_max.bits == 0 && col.r_min.bits == 0 && col.r_max.bits == 0
        },
        b <= a < frames.len() ==> column_of(frames, a, b) == column_of(frames, a, a + 1),
{
}

/// A view of positive length has all its columns, one of zero or less has none.
pub proof fn columns_depend_on_sign_of_length(len: Real, columns: nat)
    ensures
        len.nan() || len.order() > 0 ==> shown(len, columns) == columns,
        !len.nan() && len.order() <= 0 ==> shown(len, columns) == 0,
{
}

/// One of the two channels.
#[derive(Clone, Copy, Debug, PartialEq, Eq, Structural)]
pub enum Channel {
    Left,
    Right,
}

/// Minimum and maximum of a channel of `col`, each clamped to `[-1, 1]`.
pub open spec fn clamped_range(col: Column, channel: Channel) -> (Sample, Sample) {
    let low = Sample { bits: (SIGN + ONE) as u32 };
    let high = Sample { bits: ONE };
    match channel {
        Channel::Left => (clamped(col.l_min, low, high), clamped(col.l_max, low, high)),
        Channel::Right => (clamped(col.r_min, low, high), clamped(col.r_max, low, high)),
    }
}

/// What a column shows of a channel.
pub fn channel_range(col: &Column, channel: Channel) -> (range: (Sample, Sample))
    ensures
        range == clamped_range(*col, channel),
{
    let low = Sample { bits: SIGN + ONE };
    let high = Sample { bits: ONE };
    match channel {
        Channel::Left => (col.l_min.clamp(low, high), col.l_max.clamp(low, high)),
        Channel::Right => (col.r_min.clamp(low, high), col.r_max.clamp(low, high)),
    }
}

/// What is drawn of a channel lies within the value one of the center line, minimum
/// below maximum.
pub proof fn drawn_range_is_bounded(col: Column, channel: Channel)
    requires
        !col.l_min.nan(),
        !col.l_max.nan(),
        !col.r_min.nan(),
        !col.r_max.nan(),
        col.l_min.order() <= col.l_max.order(),
        col.r_min.order() <= col.r_max.order(),
    ensures
        ({
            let (low, high) = clamped_range(col, channel);
            -ONE <= low.order() <= high.order() <= ONE
        }),
{
}

/// Vertical extent of one column in the drawing: two coordinates, as text.
pub struct Span {
    pub top: String,
    pub bottom: String,
}

/// The top edge of the first `count` columns, from left to right: up or down to each
/// column's top, then one pixel to the right.
pub open spec fn top_edge(spans: Seq<Span>, count: nat) -> Seq<char>
    decreases count,
{
    if count == 0 {
        Seq::empty()
    } else {
        let x = (count - 1) as nat;
        let rise = if x > 0 {
            "V"@ + spans[x as int].top@
        } else {
            Seq::empty()
        };
        top_edge(spans, x) + rise + "H"@ + decimal(count)
    }
}

/// The bottom edge of the first `count` columns, from right to left.
pub open spec fn bottom_edge(spans: Seq<Span>, count: nat) -> Seq<char>
    decreases count,
{
    if count == 0 {
        Seq::empty()
    } else {
        let x = (count - 1) as nat;
        "V"@ + spans[x as int].bottom@ + "H"@ + decimal(x) + bottom_edge(spans, x)
    }
}

/// The closed outline of all columns; no columns have none.
pub open spec fn outline(spans: Seq<Span>) -> Seq<char> {
    if spans.len() == 0 {
        Seq::empty()
    } else {
        "M0 "@ + spans[0].top@ + top_edge(spans, spans.len()) + bottom_edge(spans, spans.len())
            + "Z"@
    }
}

/// SVG path outlining a channel as one filled shape. Column `x` covers pixels
/// `[x, x + 1)` from its top to its bottom, like a 1px bar per column, but a single
/// outline rasterizes far faster than thousands of stroked segments.
pub fn channel_path(spans: &Vec<Span>) -> (d: String)
    ensures
        d@ == outline(spans@),
{
    let mut d = String::new();
    if spans.len() == 0 {
        return d;
    }
    d.append("M0 ");
    d.append(spans[0].top.as_str());
    let ghost start = d@;
    assert(start =~= "M0 "@ + spans@[0].top@);
    let mut x: usize = 0;
    while x < spans.len()
        invariant
            x <= spans@.len(),
            d@ == start + top_edge(spans@, x as nat),
        decreases spans@.len() - x,
    {
        if x > 0 {
            d.append("V");
            d.append(spans[x].top.as_str());
        }
        d.append("H");
        push_decimal(&mut d, x as u64 + 1);
        x = x + 1;
        assert(d@ =~= start + top_edge(spans@, x as nat));
    }
    let ghost top = d@;
    let ghost bottom = bottom_edge(spans@, spans@.len());
    while x > 0
        invariant
            x <= spans@.len(),
            bottom == bottom_edge(spans@, spans@.len()),
            d@ + bottom_edge(spans@, x as nat) == top + bottom,
        decreases x,
    {
        x = x - 1;
        let ghost before = d@;
        d.append("V");
        d.append(spans[x].bottom.as_str());
        d.append("H");
        push_decimal(&mut d, x as u64);
        assert(d@ + bottom_edge(spans@, x as nat) =~= before + bottom_edge(
            spans@,
            (x + 1) as nat,
        ));
    }
    assert(d@ =~= top + bottom);
    d.append("Z");
    assert(d@ =~= outline(spans@));
    d
}

/// What is drawn of a channel is that channel's minimum and maximum, as they are within
/// the value one of zero, and else cut off there.
pub proof fn drawn_range_is_of_the_channel(col: Column, channel: Channel)
    ensures
        ({
            let (low, high) = clamped_range(col, channel);
            let (min, max) = if channel == Channel::Left {
                (col.l_min, col.l_max)
            } else {
                (col.r_min, col.r_max)
            };
            &&& min.nan() ==> low == min
            &&& max.nan() ==> high == max
            &&& !min.nan() && -0x3f80_0000 <= min.order() <= 0x3f80_0000 ==> low == min
            &&& !min.nan() && min.order() > 0x3f80_0000 ==> low.bits == 0x3f80_0000
            &&& !min.nan() && min.order() < -0x3f80_0000 ==> low.bits == 0xbf80_0000
            &&& !max.nan() && -0x3f80_0000 <= max.order() <= 0x3f80_0000 ==> high == max
            &&& !max.nan() && max.order() > 0x3f80_0000 ==> high.bits == 0x3f80_0000
            &&& !max.nan() && max.order() < -0x3f80_0000 ==> high.bits == 0xbf80_0000
        }),
{
}

/// The outline visits every column once on the way there and once on the way back: from
/// the first top at the left it goes to each column's top and one pixel on, and then, from
/// the last column to the first, to each column's bottom and back to its left side.
pub proof fn outline_visits_every_column(spans: Seq<Span>)
    ensures
        spans.len() == 0 ==> outline(spans).len() == 0,
        spans.len() > 0 ==> {
            let n = spans.len();
            let there = Seq::new(
                n,
                |x: int|
                    (if x == 0 {
                        Seq::<char>::empty()
                    } else {
                        "V"@ + spans[x].top@
                    }) + "H"@ + decimal((x + 1) as nat),
            );
            let back = Seq::new(
                n,
                |i: int| "V"@ + spans[n - 1 - i].bottom@ + "H"@ + decimal((n - 1 - i) as nat),
            );
            outline(spans) == "M0 "@ + spans[0].top@ + there.flatten() + back.flatten() + "Z"@
        },
{
    if spans.len() > 0 {
        lemma_top_edge(spans, spans.len());
        lemma_bottom_edge(spans, spans.len());
        let n = spans.len();
        let there = Seq::new(
            n,
            |x: int|
                (if x == 0 {
                    Seq::<char>::empty()
                } else {
                    "V"@ + spans[x].top@
                }) + "H"@ + decimal((x + 1) as nat),
        );
        let back = Seq::new(
            n,
            |i: int| "V"@ + spans[n - 1 - i].bottom@ + "H"@ + decimal((n - 1 - i) as nat),
        );
        assert(top_edge(spans, n) == there.flatten());
        assert(bottom_edge(spans, n) == back.flatten());
    }
}

proof fn lemma_top_edge(spans: Seq<Span>, count: nat)
    requires
        count <= spans.len(),
    ensures
        top_edge(spans, count) == Seq::new(
            count,
            |x: int|
                (if x == 0 {
                    Seq::<char>::empty()
                } else {
                    "V"@ + spans[x].top@
                }) + "H"@ + decimal((x + 1) as nat),
        ).flatten(),
    decreases count,
{
    let step = |x: int|
        (if x == 0 {
            Seq::<char>::empty()
        } else {
            "V"@ + spans[x].top@
        }) + "H"@ + decimal((x + 1) as nat);
    let all = Seq::new(count, step);
    if count > 0 {
        let x = (count - 1) as nat;
        let before = Seq::new(x, step);
        lemma_top_edge(spans, x);
        assert(all =~= before.push(step(x as int)));
        before.lemma_flatten_push(step(x as int));
        assert(top_edge(spans, count) =~= top_edge(spans, x) + step(x as int));
    } else {
        assert(all =~= Seq::empty());
    }
}

proof fn lemma_bottom_edge(spans: Seq<Span>, count: nat)
    requires
        count <= spans.len(),
    ensures
        bottom_edge(spans, count) == Seq::new(
            count,
            |i: int|
                "V"@ + spans[count - 1 - i].bottom@ + "H"@ + decimal((count - 1 - i) as nat),
        ).flatten(),
    decreases count,
{
    let all = Seq::new(
        count,
        |i: int| "V"@ + spans[count - 1 - i].bottom@ + "H"@ + decimal((count - 1 - i) as nat),
    );
    if count > 0 {
        let x = (count - 1) as nat;
        let rest = Seq::new(
            x,
            |i: int| "V"@ + spans[x - 1 - i].bottom@ + "H"@ + decimal((x - 1 - i) as nat),
        );
        lemma_bottom_edge(spans, x);
        assert(all.drop_first() =~= rest);
        assert(all.first() == "V"@ + spans[x as int].bottom@ + "H"@ + decimal(x));
    } else {
        assert(all =~= Seq::empty());
    }
}

} // verus!
