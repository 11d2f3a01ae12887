//! Which window of the recording a zoom or a pan shows.

use crate::clock::DIGITS;
use crate::position::{
    equals, frames_position, position, position_is_bounded, room, room_beside, room_is_difference, units, ONE, TOO_LONG,
};
use crate::rounding::{few_digits_stay, rounded, spacing};
use crate::view::{
    clamped, placed, visible, visible_len, window_stays_in_recording, Real, Window,
    MIN_VIEW_FRAMES,
};
use vstd::prelude::*;

verus! {

/// The length of a recording as a position; an empty one counts as one frame.
pub open spec fn full_length(frames: usize) -> Real {
    if frames > 0 {
        position(frames as nat)
    } else {
        position(1)
    }
}

/// The window for a requested start and length: the length is kept between the shortest
/// and the whole, and the start is moved until the window lies in the recording. `None`
/// when everything is visible.
pub open spec fn window_of(frames: usize, start: Real, len: Real) -> Option<Window> {
    let full = full_length(frames);
    match visible(len, full) {
        Some(l) => Some(Window { start: clamped(start, Real::zero(), room(full, l)), len: l }),
        None => None,
    }
}

/// The length of a recording as a position.
pub fn whole_length(frames: usize) -> (full: Real)
    ensures
        full == full_length(frames),
        ONE <= full.bits < TOO_LONG,
        equals(
            full,
            rounded(
                if frames > 0 {
                    frames as nat
                } else {
                    1
                },
                DIGITS as nat,
            ),
            1075,
        ),
{
    if frames > 0 {
        frames_position(frames)
    } else {
        frames_position(1)
    }
}

/// A visible length is a position, and shorter than the recording.
proof fn lemma_visible(len: Real, full: Real)
    requires
        !len.nan(),
        ONE <= full.bits < TOO_LONG,
    ensures
        visible(len, full) matches Some(l) ==> MIN_VIEW_FRAMES <= l.bits < full.bits,
{
}

/// The window for a requested start and length.
pub fn window_for(frames: usize, start: Real, len: Real) -> (window: Option<Window>)
    requires
        !len.nan(),
    ensures
        window == window_of(frames, start, len),
{
    let full = whole_length(frames);
    proof {
        lemma_visible(len, full);
    }
    match visible_len(len, full) {
        Some(l) => {
            let rest = room_beside(full, l);
            Some(placed(start, l, rest))
        },
        None => None,
    }
}

/// Whatever start and length are asked for, everything is shown, or a window that is
/// shorter than the recording, at least as long as the shortest, and within the
/// recording: it starts at zero or later, and no later than where it would end with the
/// recording, a difference that is exact but for the last of 53 binary digits. Everything
/// is shown exactly when the length asked for is at least the recording's, or the
/// recording is no longer than the shortest window.
pub proof fn zoom_stays_in_recording(frames: usize, start: Real, len: Real)
    requires
        !start.nan(),
        !len.nan(),
    ensures
        ({
            let full = full_length(frames);
            let least = Real { bits: MIN_VIEW_FRAMES };
            &&& window_of(frames, start, len) is None <==> len.order() >= full.order()
                || full.order() <= least.order()
            &&& window_of(frames, start, len) matches Some(w) ==> {
                let exact = (units(full) - units(w.len)) as nat;
                let near = rounded(exact, DIGITS as nat);
                &&& least.order() <= w.len.order() < full.order()
                &&& 0 <= w.start.order() <= room(full, w.len).order()
                &&& equals(room(full, w.len), near, 1023)
                &&& units(w.len) < units(full)
                &&& 2 * near <= 2 * exact + spacing(exact, DIGITS as nat)
                &&& 2 * exact <= 2 * near + spacing(exact, DIGITS as nat)
                &&& exact < DIGITS ==> near == exact
            }
        }),
{
    let full = full_length(frames);
    position_is_bounded(
        if frames > 0 {
            frames as nat
        } else {
            1
        },
    );
    lemma_visible(len, full);
    window_stays_in_recording(start, len, full, Real::zero());
    if let Some(l) = visible(len, full) {
        room_is_difference(full, l);
    }
}

/// The window starts where it was asked to if it then lies in the recording, and is as
/// long as it was asked to be if that is at least 64 frames; it is moved no further than
/// to the start or to the end.
pub proof fn zoom_shows_what_was_asked(frames: usize, start: Real, len: Real)
    requires
        !len.nan(),
    ensures
        window_of(frames, start, len) matches Some(w) ==> {
            let room = room(full_length(frames), w.len);
            &&& len.order() >= 0x4050_0000_0000_0000 ==> w.len == len
            &&& len.order() < 0x4050_0000_0000_0000 ==> w.len.bits == 0x4050_0000_0000_0000
            &&& start.nan() || 0 <= start.order() <= room.order() ==> w.start == start
            &&& !start.nan() && start.order() < 0 ==> w.start.bits == 0
            &&& !start.nan() && 0 <= start.order() && start.order() > room.order() ==> w.start
                == room
        },
        window_of(frames, start, len) is None <==> len.order() >= full_length(frames).order()
            || full_length(frames).order() <= 0x4050_0000_0000_0000,
{
    position_is_bounded(
        if frames > 0 {
            frames as nat
        } else {
            1
        },
    );
    zoom_stays_in_recording(frames, Real::zero(), len);
}

/// The length of a recording is its number of frames, exactly while that has 53 binary
/// digits; an empty recording counts as one frame.
pub proof fn full_length_counts_frames(frames: usize)
    ensures
        0 < frames < 0x20_0000_0000_0000 ==> equals(full_length(frames), frames as nat, 1075),
        frames == 0 ==> equals(full_length(frames), 1, 1075),
        frames >= 0x20_0000_0000_0000 ==> equals(
            full_length(frames),
            rounded(frames as nat, 0x20_0000_0000_0000),
            1075,
        ),
{
    let n: nat = if frames > 0 {
        frames as nat
    } else {
        1
    };
    position_is_bounded(n);
    if n < DIGITS {
        few_digits_stay(n, DIGITS as nat);
    }
}

} // verus!
