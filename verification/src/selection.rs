//! What is selected in the waveform: the region, the cursor, and the drag that is
//! under way.

use vstd::prelude::*;

verus! {

/// A run of frames, start included and end not; `None` when nothing is selected.
pub type Region = Option<(usize, usize)>;

/// The region between two frames, in either order; none between a frame and itself.
pub open spec fn region_between(a: usize, b: usize) -> Region {
    if a == b {
        None
    } else if a < b {
        Some((a, b))
    } else {
        Some((b, a))
    }
}

/// The region between two frames, in either order.
pub fn normalized(a: usize, b: usize) -> (region: Region)
    ensures
        region == region_between(a, b),
{
    if a == b {
        None
    } else if a < b {
        Some((a, b))
    } else {
        Some((b, a))
    }
}

/// A mouse button.
#[derive(Clone, Copy, Debug, PartialEq, Eq, Structural)]
pub enum Button {
    Primary,
    Secondary,
    Other,
}

/// Region, cursor and drag.
#[derive(Clone, Copy, Debug, PartialEq, Eq)]
pub struct Selection {
    pub region: Region,
    pub cursor: usize,
    /// Drag of the primary button in progress: where it began and where it is.
    pub drag: Option<(usize, usize)>,
}

impl Selection {
    /// Nothing selected, cursor at the start.
    pub open spec fn none() -> Selection {
        Selection { region: None, cursor: 0, drag: None }
    }

    /// After region and cursor were reset.
    pub open spec fn reset(self) -> Selection {
        Selection { region: None, cursor: 0, ..self }
    }

    /// The frame at the pointer, kept within the recording.
    pub open spec fn within(frame: usize, frames: usize) -> usize {
        if frame < frames {
            frame
        } else {
            frames
        }
    }

    /// After a button went down at a frame: the primary one begins a drag, the
    /// secondary one moves the far edge of the region, which starts at the cursor if
    /// there is none yet.
    pub open spec fn pressed(self, button: Button, frame: usize, frames: usize) -> Selection {
        let f = Selection::within(frame, frames);
        match button {
            Button::Primary => Selection { drag: Some((f, f)), ..self },
            Button::Secondary => {
                let start = match self.region {
                    Some((a, _)) => a,
                    None => self.cursor,
                };
                Selection { region: region_between(start, f), ..self }
            },
            Button::Other => self,
        }
    }

    /// After the drag ended: if it moved far enough it selects a region, else it is a
    /// click, which sets the cursor where clicks count.
    pub open spec fn drag_ended(self, moved: bool, allow_click: bool) -> Selection {
        match self.drag {
            Some((a, c)) => {
                let ended = Selection { drag: None, ..self };
                if moved {
                    Selection { region: region_between(a, c), ..ended }
                } else if allow_click {
                    Selection { cursor: a, ..ended }
                } else {
                    ended
                }
            },
            None => self,
        }
    }

    /// After the pointer moved to a frame: the drag follows while the primary button
    /// is held, and ends without a click when it was let go elsewhere.
    pub open spec fn moved_to(
        self,
        held: bool,
        frame: usize,
        frames: usize,
        moved: bool,
    ) -> Selection {
        match self.drag {
            Some((a, _)) => if held {
                Selection { drag: Some((a, Selection::within(frame, frames))), ..self }
            } else {
                self.drag_ended(moved, false)
            },
            None => self,
        }
    }

    /// The frame where a click plays from, if ending the drag is one.
    pub open spec fn clicked(self, moved: bool, allow_click: bool) -> Option<usize> {
        match self.drag {
            Some((a, _)) => if !moved && allow_click {
                Some(a)
            } else {
                None
            },
            None => None,
        }
    }

    /// The region to draw: that of the drag, if it has one, else the selected one.
    pub open spec fn shown(self) -> Region {
        match self.drag {
            Some((a, c)) => if a != c {
                region_between(a, c)
            } else {
                self.region
            },
            None => self.region,
        }
    }

    /// What Space plays and Save exports, unless it is the whole or the rest: the
    /// region, or else `start` to the end.
    pub open spec fn range_or(self, start: usize, frames: usize) -> (usize, usize) {
        match self.region {
            Some(r) => r,
            None => (start, frames),
        }
    }

    /// A region is never empty nor reversed.
    pub open spec fn ordered(self) -> bool {
        self.region matches Some((a, b)) ==> a < b
    }

    /// Region, cursor and drag lie in a recording of `frames` frames.
    pub open spec fn fits(self, frames: nat) -> bool {
        &&& self.region matches Some((a, b)) ==> a <= frames && b <= frames
        &&& self.cursor <= frames
        &&& self.drag matches Some((a, c)) ==> a <= frames && c <= frames
    }

    pub fn new() -> (s: Selection)
        ensures
            s == Selection::none(),
    {
        Selection { region: None, cursor: 0, drag: None }
    }

    /// Drops the region and puts the cursor at the start.
    pub fn clear(&mut self)
        ensures
            *final(self) == old(self).reset(),
    {
        self.region = None;
        self.cursor = 0;
    }

    fn limited(frame: usize, frames: usize) -> (f: usize)
        ensures
            f == Selection::within(frame, frames),
    {
        if frame < frames {
            frame
        } else {
            frames
        }
    }

    /// A button went down at `frame` of a recording of `frames` frames.
    pub fn press(&mut self, button: Button, frame: usize, frames: usize)
        ensures
            *final(self) == old(self).pressed(button, frame, frames),
    {
        let f: usize = Selection::limited(frame, frames);
        match button {
            Button::Primary => {
                self.drag = Some((f, f));
            },
            Button::Secondary => {
                let start: usize = match self.region {
                    Some((a, _)) => a,
                    None => self.cursor,
                };
                self.region = normalized(start, f);
            },
            Button::Other => {},
        }
    }

    /// Ends the drag. `moved` says whether it travelled far enough to be one. The
    /// frame that comes back was clicked.
    pub fn end_drag(&mut self, moved: bool, allow_click: bool) -> (click: Option<usize>)
        ensures
            *final(self) == old(self).drag_ended(moved, allow_click),
            click == old(self).clicked(moved, allow_click),
    {
        match self.drag {
            Some((a, c)) => {
                self.drag = None;
                if moved {
                    self.region = normalized(a, c);
                    None
                } else if allow_click {
                    self.cursor = a;
                    Some(a)
                } else {
                    None
                }
            },
            None => None,
        }
    }

    /// The pointer moved to `frame`, the primary button `held` or not.
    pub fn move_to(&mut self, held: bool, frame: usize, frames: usize, moved: bool)
        ensures
            *final(self) == old(self).moved_to(held, frame, frames, moved),
    {
        if let Some((a, _)) = self.drag {
            if held {
                self.drag = Some((a, Selection::limited(frame, frames)));
            } else {
                let _ = self.end_drag(moved, false);
            }
        }
    }

    /// The region to draw.
    pub fn shown_region(&self) -> (region: Region)
        ensures
            region == self.shown(),
    {
        match self.drag {
            Some((a, c)) => match normalized(a, c) {
                Some(r) => Some(r),
                None => self.region,
            },
            None => self.region,
        }
    }

    /// The region, or `start` to the end if there is none.
    pub fn range(&self, start: usize, frames: usize) -> (range: (usize, usize))
        ensures
            range == self.range_or(start, frames),
    {
        match self.region {
            Some(r) => r,
            None => (start, frames),
        }
    }
}

/// Whatever the mouse does, a region has its ends in order, and a selection that
/// lies in the recording stays in it.
pub proof fn mouse_keeps_selection_sound(
    s: Selection,
    button: Button,
    frame: usize,
    frames: usize,
    held: bool,
    moved: bool,
    allow_click: bool,
)
    requires
        s.ordered(),
    ensures
        s.pressed(button, frame, frames).ordered(),
        s.moved_to(held, frame, frames, moved).ordered(),
        s.drag_ended(moved, allow_click).ordered(),
        s.reset().ordered(),
        s.fits(frames as nat) ==> s.pressed(button, frame, frames).fits(frames as nat),
        s.fits(frames as nat) ==> s.moved_to(held, frame, frames, moved).fits(frames as nat),
        s.fits(frames as nat) ==> s.drag_ended(moved, allow_click).fits(frames as nat),
        s.fits(frames as nat) ==> s.reset().fits(frames as nat),
{
}

/// A selection that lies in the recording still does after more was recorded.
pub proof fn growth_keeps_selection_sound(s: Selection, frames: nat, more: nat)
    requires
        s.fits(frames),
    ensures
        s.fits(frames + more),
{
}

/// The secondary button keeps the near edge of a region: pressed anywhere behind it,
/// the region still starts there, and ends at the pointer.
pub proof fn secondary_button_moves_far_edge(
    s: Selection,
    a: usize,
    b: usize,
    frame: usize,
    frames: usize,
)
    requires
        s.region == Some((a, b)),
        a < Selection::within(frame, frames),
    ensures
        s.pressed(Button::Secondary, frame, frames).region == Some(
            (a, Selection::within(frame, frames)),
        ),
{
}

/// Pressing the primary button, moving it and letting go selects what lies between,
/// whichever way it went; not moving it sets the cursor and keeps the region.
pub proof fn drag_selects_and_click_does_not(s: Selection, from: usize, to: usize, frames: usize)
    requires
        from <= frames,
        to <= frames,
    ensures
        ({
            let held = s.pressed(Button::Primary, from, frames).moved_to(true, to, frames, true);
            let back = s.pressed(Button::Primary, to, frames).moved_to(true, from, frames, true);
            &&& held.drag_ended(true, true).region == region_between(from, to)
            &&& held.drag_ended(true, true).region == back.drag_ended(true, true).region
            &&& held.drag_ended(true, true).cursor == s.cursor
            &&& held.drag_ended(false, true).cursor == from
            &&& held.drag_ended(false, true).region == s.region
            &&& held.drag_ended(true, true).drag is None
        }),
{
}

/// A region has the two frames as its ends, the lower first, and there is none between a
/// frame and itself.
pub proof fn region_has_both_ends(a: usize, b: usize)
    ensures
        a == b <==> region_between(a, b) is None,
        region_between(a, b) matches Some((low, high)) ==> low < high && (low == a && high == b
            || low == b && high == a),
        region_between(a, b) == region_between(b, a),
{
}

/// Pressing the primary button begins a drag at the pointer, kept within the recording, and
/// touches neither region nor cursor; other buttons than the first two do nothing.
pub proof fn pressing_begins_a_drag(s: Selection, frame: usize, frames: usize)
    ensures
        ({
            let t = s.pressed(Button::Primary, frame, frames);
            let at = if frame <= frames {
                frame
            } else {
                frames
            };
            &&& t.drag == Some((at, at))
            &&& t.region == s.region && t.cursor == s.cursor
        }),
        s.pressed(Button::Other, frame, frames) == s,
{
}

/// Pressing the secondary button selects what lies between the pointer and the near edge of
/// the region, or the cursor if there is no region; it touches neither cursor nor drag. The
/// pointer is kept within the recording.
pub proof fn secondary_button_selects_up_to_pointer(s: Selection, at: usize, frames: usize)
    ensures
        ({
            let t = s.pressed(Button::Secondary, at, frames);
            let frame = if at <= frames {
                at
            } else {
                frames
            };
            &&& t.cursor == s.cursor && t.drag == s.drag
            &&& s.region is None && s.cursor < frame ==> t.region == Some((s.cursor, frame))
            &&& s.region is None && frame < s.cursor ==> t.region == Some((frame, s.cursor))
            &&& s.region is None && frame == s.cursor ==> t.region is None
            &&& s.region matches Some((a, b)) ==> {
                &&& a < frame ==> t.region == Some((a, frame))
                &&& frame < a ==> t.region == Some((frame, a))
                &&& frame == a ==> t.region is None
            }
        }),
{
}

/// A drag follows the pointer while the button is held, kept within the recording, and
/// keeps where it began; without a drag the pointer moves freely.
pub proof fn drag_follows_pointer(s: Selection, frame: usize, frames: usize, moved: bool)
    ensures
        ({
            let t = s.moved_to(true, frame, frames, moved);
            &&& t.region == s.region && t.cursor == s.cursor
            &&& s.drag is None ==> t.drag is None
            &&& s.drag matches Some((a, _)) ==> t.drag == Some(
                (
                    a,
                    if frame <= frames {
                        frame
                    } else {
                        frames
                    },
                ),
            )
        }),
        s.drag is None ==> s.moved_to(false, frame, frames, moved) == s,
        s.moved_to(false, frame, frames, moved) == s.drag_ended(moved, false),
{
}

/// A drag that went far enough selects what lies between its two frames and leaves the
/// cursor; one that did not is a click, which sets the cursor where it began and leaves the
/// region, unless clicks do not count there. Either way no drag is left; without one
/// nothing changes.
pub proof fn ending_a_drag(s: Selection, moved: bool, allow_click: bool)
    ensures
        s.drag is None ==> s.drag_ended(moved, allow_click) == s && s.clicked(moved, allow_click) is None,
        s.drag matches Some((a, c)) ==> {
            let t = s.drag_ended(moved, allow_click);
            &&& t.drag is None
            &&& moved ==> {
                &&& t.cursor == s.cursor
                &&& a < c ==> t.region == Some((a, c))
                &&& c < a ==> t.region == Some((c, a))
                &&& a == c ==> t.region is None
                &&& s.clicked(moved, allow_click) is None
            }
            &&& !moved ==> t.region == s.region
            &&& !moved && allow_click ==> t.cursor == a && s.clicked(moved, allow_click) == Some(a)
            &&& !moved && !allow_click ==> t.cursor == s.cursor && s.clicked(
                moved,
                allow_click,
            ) is None
        },
{
}

/// What is drawn as selected is what the drag in progress would select, or else the region.
pub proof fn drawn_region(s: Selection)
    ensures
        s.drag is None ==> s.shown() == s.region,
        s.drag matches Some((a, c)) ==> {
            &&& a < c ==> s.shown() == Some((a, c))
            &&& c < a ==> s.shown() == Some((c, a))
            &&& a == c ==> s.shown() == s.region
        },
{
}

/// The range of a selection is its region, or from `start` to the end; resetting leaves
/// neither region nor cursor, and a new selection has nothing at all.
pub proof fn range_and_reset(s: Selection, start: usize, frames: usize)
    ensures
        s.region matches Some((a, b)) ==> s.range_or(start, frames) == (a, b),
        s.region is None ==> s.range_or(start, frames) == (start, frames),
        s.reset().region is None && s.reset().cursor == 0 && s.reset().drag == s.drag,
        Selection::none().region is None && Selection::none().cursor == 0
            && Selection::none().drag is None,
{
}

} // verus!
