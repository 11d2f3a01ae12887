//! The level meter.

use crate::sample::{clamped, greater, zero, Sample};
use vstd::prelude::*;

verus! {

/// Levels below this show as silence: the value 0.0001.
pub const SILENCE: u32 = 0x38d1_b717;

/// Bottom of the meter's scale: the value -60, in dB.
pub const METER_FLOOR_DB: u32 = 0xc270_0000;

/// The level to show after one step: the new peak or what is left of the old one,
/// whichever is larger, and zero once that is inaudible.
pub open spec fn settled(decayed: Sample, raw: Sample) -> Sample {
    let level = greater(raw, decayed);
    if !level.nan() && level.order() < SILENCE {
        zero()
    } else {
        level
    }
}

/// The level to show after one step, from the `decayed` old level and the `raw` new
/// one.
pub fn settle(decayed: Sample, raw: Sample) -> (level: Sample)
    ensures
        level == settled(decayed, raw),
{
    let level = raw.max(decayed);
    if level.below(Sample { bits: SILENCE }) {
        Sample { bits: 0 }
    } else {
        level
    }
}

/// A meter never shows less than the peak it was just given, as long as that peak is
/// audible, and shows nothing once both are inaudible.
pub proof fn meter_follows_peaks(decayed: Sample, raw: Sample)
    requires
        !raw.nan(),
        !decayed.nan(),
    ensures
        raw.order() >= SILENCE ==> settled(decayed, raw).order() >= raw.order(),
        raw.order() < SILENCE && decayed.order() < SILENCE ==> settled(decayed, raw) == zero(),
        decayed.order() <= raw.order() && raw.order() >= SILENCE ==> settled(decayed, raw) == raw,
{
}

/// A reading of the meter.
#[derive(Clone, Copy, Debug, PartialEq, Eq, Structural)]
pub struct Reading {
    /// Level in dB, within the scale.
    pub db: Sample,
    /// The level is at the bottom of the scale.
    pub silent: bool,
}

/// The reading for a level whose logarithm, in dB, is `db`; without a level the
/// logarithm does not count.
pub open spec fn reading_of(level: Sample, db: Sample) -> Reading {
    let floor = Sample { bits: METER_FLOOR_DB };
    let shown = if !level.nan() && level.order() > 0 {
        clamped(db, floor, zero())
    } else {
        floor
    };
    Reading { db: shown, silent: !shown.nan() && shown.order() <= floor.order() }
}

/// The reading for a level and its logarithm in dB.
pub fn reading(level: Sample, db: Sample) -> (r: Reading)
    ensures
        r == reading_of(level, db),
{
    let floor = Sample { bits: METER_FLOOR_DB };
    let top = Sample { bits: 0 };
    let raw = if top.below(level) { db } else { floor };
    let shown = raw.clamp(floor, top);
    Reading { db: shown, silent: !shown.is_nan() && !floor.below(shown) }
}

/// The meter shows the louder of the new peak and what is left of the old one, and nothing
/// once that is below the value 0.0001.
pub proof fn meter_shows_the_louder(decayed: Sample, raw: Sample)
    ensures
        raw.nan() && decayed.nan() ==> settled(decayed, raw) == raw,
        raw.nan() && !decayed.nan() ==> settled(decayed, raw) == settled(decayed, decayed),
        decayed.nan() && !raw.nan() ==> settled(decayed, raw) == settled(raw, raw),
        !raw.nan() && !decayed.nan() ==> ({
            let level = settled(decayed, raw);
            let audible = raw.order() >= 0x38d1_b717 || decayed.order() >= 0x38d1_b717;
            &&& !audible ==> level.bits == 0
            &&& audible && raw.order() >= decayed.order() ==> level == raw
            &&& audible && raw.order() < decayed.order() ==> level == decayed
        }),
{
}

/// A reading is the level in dB as it is, within -60 and 0 dB; anything quieter reads as
/// -60 dB and silent, as does no level at all, and anything louder reads as 0 dB.
pub proof fn reading_is_on_the_scale(level: Sample, db: Sample)
    ensures
        level.nan() || level.order() <= 0 ==> reading_of(level, db) == reading_of(zero(), zero()),
        db.nan() && !level.nan() && level.order() > 0 ==> reading_of(level, db) == (Reading {
            db,
            silent: false,
        }),
        !db.nan() ==> ({
            let r = reading_of(level, db);
            let floor = Sample { bits: 0xc270_0000 };
            let heard = !level.nan() && level.order() > 0;
            &&& heard && floor.order() <= db.order() <= 0 ==> r.db == db
            &&& heard && db.order() > 0 ==> r.db.bits == 0
            &&& heard && db.order() < floor.order() ==> r.db == floor
            &&& !heard ==> r.db == floor
            &&& r.silent <==> !heard || db.order() <= floor.order()
        }),
{
}

} // verus!
