//! The visible window of the waveform, and what the mouse wheel and the pointer's
//! travel decide.
//!
//! Positions are IEEE 754 binary64 values, held as bit patterns like samples are:
//! here they are only ordered.

use vstd::prelude::*;

verus! {

/// Bits of the sign of a position.
pub const SIGN: u64 = 0x8000_0000_0000_0000;

/// Magnitude of infinity; every larger magnitude is "not a number".
pub const INFINITY: u64 = 0x7ff0_0000_0000_0000;

/// Fewest frames the main view may show when fully zoomed in: the value 64.
pub const MIN_VIEW_FRAMES: u64 = 0x4050_0000_0000_0000;

/// Mouse travel below this counts as a click rather than a drag: the value 3, in
/// pixels.
pub const CLICK_SLOP_PX: u64 = 0x4008_0000_0000_0000;

/// One binary64 value, as its bit pattern.
#[derive(Clone, Copy, Debug, PartialEq, Eq, Structural)]
pub struct Real {
    pub bits: u64,
}

impl Real {
    /// The value zero.
    pub open spec fn zero() -> Real {
        Real { bits: 0 }
    }

    /// Whether the pattern stands for no number.
    pub open spec fn nan(self) -> bool {
        if self.bits >= SIGN {
            self.bits - SIGN > INFINITY
        } else {
            self.bits > INFINITY
        }
    }

    /// Position on the number line: one number is below another exactly when its
    /// `order` is. Both zeros have order 0.
    pub open spec fn order(self) -> int {
        if self.bits >= SIGN {
            -(self.bits - SIGN)
        } else {
            self.bits as int
        }
    }

    pub fn from_bits(bits: u64) -> (x: Real)
        ensures
            x.bits == bits,
    {
        Real { bits }
    }

    pub fn to_bits(self) -> (bits: u64)
        ensures
            bits == self.bits,
    {
        self.bits
    }

    pub fn is_nan(self) -> (b: bool)
        ensures
            b == self.nan(),
    {
        let magnitude: u64 = if self.bits >= SIGN { self.bits - SIGN } else { self.bits };
        magnitude > INFINITY
    }

    /// `self < other` as numbers; false when either is no number.
    pub fn below(self, other: Real) -> (b: bool)
        ensures
            b == (!self.nan() && !other.nan() && self.order() < other.order()),
    {
        if self.is_nan() || other.is_nan() {
            return false;
        }
        if self.bits >= SIGN {
            if other.bits >= SIGN {
                self.bits > other.bits
            } else {
                self.bits > SIGN || other.bits > 0
            }
        } else {
            other.bits < SIGN && self.bits < other.bits
        }
    }

    /// The nearest number in `[low, high]`; what is no number stays as it is.
    pub fn clamp(self, low: Real, high: Real) -> (x: Real)
        requires
            !low.nan(),
            !high.nan(),
            low.order() <= high.order(),
        ensures
            x == clamped(self, low, high),
    {
        if self.below(low) {
            low
        } else if high.below(self) {
            high
        } else {
            self
        }
    }
}

/// `x` moved into `[low, high]`, if it is a number.
pub open spec fn clamped(x: Real, low: Real, high: Real) -> Real {
    if x.nan() {
        x
    } else if x.order() < low.order() {
        low
    } else if x.order() > high.order() {
        high
    } else {
        x
    }
}

/// Visible window of the main waveform, in frames.
#[derive(Clone, Copy, Debug, PartialEq, Eq, Structural)]
pub struct Window {
    pub start: Real,
    pub len: Real,
}

/// Shortest window of a recording of `full` frames.
pub open spec fn shortest(full: Real) -> Real {
    if full.order() < (Real { bits: MIN_VIEW_FRAMES }).order() {
        full
    } else {
        Real { bits: MIN_VIEW_FRAMES }
    }
}

/// The length of the window that shows `len` of `full` frames; none when that is
/// everything.
pub open spec fn visible(len: Real, full: Real) -> Option<Real> {
    let l = clamped(len, shortest(full), full);
    if l.order() >= full.order() {
        None
    } else {
        Some(l)
    }
}

/// The length of the window for a requested length, snapping back to `None` when
/// everything is visible.
pub fn visible_len(len: Real, full: Real) -> (window: Option<Real>)
    requires
        !len.nan(),
        !full.nan(),
    ensures
        window == visible(len, full),
{
    let least = Real { bits: MIN_VIEW_FRAMES };
    let low = if full.below(least) { full } else { least };
    let l = len.clamp(low, full);
    if l.below(full) {
        Some(l)
    } else {
        None
    }
}

/// The window of length `len` at `start`, moved into the recording: `room` is the
/// rest of it beside the window.
pub fn placed(start: Real, len: Real, room: Real) -> (window: Window)
    requires
        !room.nan(),
        room.order() >= 0,
    ensures
        window == (Window { start: clamped(start, Real::zero(), room), len }),
{
    Window { start: start.clamp(Real { bits: 0 }, room), len }
}

/// A window is shorter than the recording and at least as long as the shortest, and
/// lies within the recording.
pub proof fn window_stays_in_recording(start: Real, len: Real, full: Real, room: Real)
    requires
        !start.nan(),
        !len.nan(),
        !full.nan(),
        !room.nan(),
        room.order() >= 0,
    ensures
        visible(len, full) matches Some(l) ==> shortest(full).order() <= l.order() < full.order(),
        visible(len, full) is None <==> len.order() >= full.order() || shortest(full) == full,
        0 <= clamped(start, Real::zero(), room).order() <= room.order(),
{
}

/// A turn of the mouse wheel.
#[derive(Clone, Copy, Debug, PartialEq, Eq, Structural)]
pub enum Zoom {
    In,
    Out,
}

/// What turning the wheel by `dy` does: nothing without a recording or without a
/// turn, else it zooms in upwards and out downwards.
pub open spec fn turned(frames: usize, dy: Real) -> Option<Zoom> {
    if frames == 0 || (!dy.nan() && dy.order() == 0) {
        None
    } else if !dy.nan() && dy.order() < 0 {
        Some(Zoom::In)
    } else {
        Some(Zoom::Out)
    }
}

/// What turning the wheel by `dy` does.
pub fn wheel(frames: usize, dy: Real) -> (zoom: Option<Zoom>)
    ensures
        zoom == turned(frames, dy),
        frames > 0 && !dy.nan() && dy.order() < 0 ==> zoom == Some(Zoom::In),
        frames > 0 && !dy.nan() && dy.order() > 0 ==> zoom == Some(Zoom::Out),
        frames == 0 || (!dy.nan() && dy.order() == 0) ==> zoom is None,
{
    if frames == 0 || dy.bits == 0 || dy.bits == SIGN {
        None
    } else if dy.below(Real { bits: 0 }) {
        Some(Zoom::In)
    } else {
        Some(Zoom::Out)
    }
}

/// Whether the pointer travelled far enough for a drag: at least
/// [`CLICK_SLOP_PX`].
pub fn is_drag(travel: Real) -> (moved: bool)
    ensures
        moved == (!travel.nan() && travel.order() >= CLICK_SLOP_PX),
        moved <==> !travel.nan() && travel.order() >= 0x4008_0000_0000_0000,
{
    !travel.is_nan() && !travel.below(Real { bits: CLICK_SLOP_PX })
}

/// A positive pattern stands for a number that grows with it, up to infinity, and the
/// sign bit turns it round.
pub proof fn positions_follow_their_bits(x: Real)
    ensures
        x.bits < 0x8000_0000_0000_0000 ==> x.order() == x.bits && x.nan() == (x.bits
            > 0x7ff0_0000_0000_0000),
        x.bits >= 0x8000_0000_0000_0000 ==> {
            let y = Real { bits: (x.bits - 0x8000_0000_0000_0000) as u64 };
            x.order() == -y.order() && x.nan() == y.nan()
        },
        Real::zero().bits == 0,
{
}

/// Clamping leaves a number that lies between the bounds as it is, and moves any other
/// to the bound that it passed.
pub proof fn clamping_keeps_what_fits(x: Real, low: Real, high: Real)
    requires
        low.order() <= high.order(),
    ensures
        x.nan() || low.order() <= x.order() <= high.order() ==> clamped(x, low, high) == x,
        !x.nan() && x.order() < low.order() ==> clamped(x, low, high) == low,
        !x.nan() && x.order() > high.order() ==> clamped(x, low, high) == high,
{
}

/// Upward turns of the wheel zoom in, downward turns zoom out, and no turn does nothing,
/// nor does any turn without a recording; opposite turns never do the same.
pub proof fn wheel_zooms_by_direction(frames: usize, dy: Real, back: Real)
    requires
        !dy.nan(),
        !back.nan(),
        back.order() == -dy.order(),
    ensures
        frames > 0 && dy.order() < 0 ==> turned(frames, dy) == Some(Zoom::In),
        frames > 0 && dy.order() > 0 ==> turned(frames, dy) == Some(Zoom::Out),
        dy.order() == 0 ==> turned(frames, dy) is None,
        frames == 0 ==> turned(frames, dy) is None,
        frames > 0 && dy.order() != 0 ==> turned(frames, dy) != turned(frames, back),
        forall|odd: Real|
            odd.nan() && frames > 0 ==> #[trigger] turned(frames, odd) == Some(Zoom::Out),
{
}

/// A length is shown as asked for if it is at least 64 frames and less than the whole; a
/// shorter one becomes 64 frames.
pub proof fn visible_length_is_as_asked(len: Real, full: Real)
    requires
        !len.nan(),
        !full.nan(),
        len.order() < full.order(),
        full.order() > 0x4050_0000_0000_0000,
    ensures
        len.order() >= 0x4050_0000_0000_0000 ==> visible(len, full) == Some(len),
        len.order() < 0x4050_0000_0000_0000 ==> (visible(len, full) matches Some(l) && l.bits
            == 0x4050_0000_0000_0000),
{
}

} // verus!
