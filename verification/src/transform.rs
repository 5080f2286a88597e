//! Conversions between decimal degrees and sexagesimal coordinates.
//!
//! Degrees carry six decimal places (`37_687_500` is 37.6875 degrees), and
//! so do the seconds of [`HoursMinSec`] and [`DegMinSec`].  The
//! decompositions truncate toward zero, as the formulas ask, and the
//! degree/minute/second decomposition propagates carries when the seconds
//! or minutes would display as 60.

use vstd::prelude::*;

verus! {

use vstd::arithmetic::div_mod::{lemma_div_multiples_vanish, lemma_fundamental_div_mod};

use crate::num::{div_floor_i64, lemma_div_between};
use crate::{DegMinSec, HoursMinSec, RightAscension};

/// The signed degree value of a right ascension: `(hours + minutes/60 +
/// seconds/3600) * 15`, mapped onto `(-180, 180]` by subtracting a turn
/// from anything above 180 degrees.  The one division (seconds to degrees)
/// rounds toward negative infinity.
pub open spec fn ra_deg(h: int, m: int, s: int) -> int {
    let plain: int = h * 15_000_000 + m * 250_000 + s / 240;
    if plain > 180_000_000 {
        plain - 360_000_000
    } else {
        plain
    }
}

/// Converts a right ascension to degrees; right ascensions east of 12h come
/// out negative rather than above 180 degrees.
pub fn ra_to_deg(ra: &RightAscension) -> (deg: i64)
    ensures
        deg == ra_deg(ra.hours as int, ra.minutes as int, ra.seconds as int),
{
    proof {
        lemma_div_between(ra.seconds as int, 240);
    }
    let sec_part: i64 = div_floor_i64(ra.seconds, 240);
    let plain: i64 = ra.hours as i64 * 15_000_000 + ra.minutes as i64 * 250_000 + sec_part;

    if plain > 180_000_000 {
        plain - 360_000_000
    } else {
        plain
    }
}

/// The whole hours of a degree value seen as a right ascension.
pub open spec fn ra_hours(deg: int) -> int {
    deg / 15_000_000
}

/// The whole minutes of a degree value seen as a right ascension.
pub open spec fn ra_minutes(deg: int) -> int {
    (deg - ra_hours(deg) * 15_000_000) * 4 / 1_000_000
}

/// The seconds (six decimal places) of a degree value seen as a right
/// ascension; this last step is exact, no rounding is left.
pub open spec fn ra_seconds(deg: int) -> int {
    (deg - ra_hours(deg) * 15_000_000 - ra_minutes(deg) * 250_000) * 240
}

/// Decomposes a degree value in `[0, 360)` into hours, minutes and seconds
/// of right ascension.  Hours and minutes truncate toward zero; what
/// remains goes into the seconds exactly.
pub fn deg_to_ra(deg: i64) -> (r: HoursMinSec)
    requires
        0 <= deg < 360_000_000,
    ensures
        r.hours == ra_hours(deg as int),
        r.minutes == ra_minutes(deg as int),
        r.seconds == ra_seconds(deg as int),
        r.hours <= 23,
        r.minutes <= 59,
        0 <= r.seconds < 60_000_000,
{
    let hours: i64 = div_floor_i64(deg, 15_000_000);
    proof {
        lemma_fundamental_div_mod(deg as int, 15_000_000);
    }
    let hour_rem: i64 = deg - hours * 15_000_000;
    let minutes: i64 = div_floor_i64(hour_rem * 4, 1_000_000);
    proof {
        lemma_fundamental_div_mod(hour_rem as int * 4, 1_000_000);
    }
    let seconds: i64 = (hour_rem - minutes * 250_000) * 240;

    HoursMinSec { hours: hours as u8, minutes: minutes as u8, seconds }
}

/// The signed degree value of a degrees/minutes/seconds position:
/// `degrees + minutes/60 + seconds/3600`, negated when the sign flag is
/// set.  The one division (the combined value to degrees) rounds toward
/// negative infinity.
pub open spec fn dec_deg(negative: bool, d: int, m: int, s: int) -> int {
    let t: int = (d * 3_600_000_000 + m * 60_000_000 + s) / 3600;
    if negative {
        -t
    } else {
        t
    }
}

/// Converts a declination (or any degrees/minutes/seconds angle) to signed
/// decimal degrees.
pub fn dec_to_deg(dec: &DegMinSec) -> (deg: i64)
    requires
        dec.degrees >= 0,
        0 <= dec.seconds < 60_000_000,
    ensures
        deg == dec_deg(dec.negative, dec.degrees as int, dec.minutes as int, dec.seconds as int),
{
    let total: i64 = dec.degrees as i64 * 3_600_000_000 + dec.minutes as i64 * 60_000_000
        + dec.seconds;
    let t: i64 = div_floor_i64(total, 3600);
    proof {
        lemma_div_between(total as int, 3600);
    }

    if dec.negative {
        -t
    } else {
        t
    }
}

/// The magnitude of a signed degree value.
pub open spec fn dms_mag(deg: int) -> int {
    if deg < 0 {
        -deg
    } else {
        deg
    }
}

/// Whole degrees of the decomposition, before any carry.
pub open spec fn dms_whole(deg: int) -> int {
    dms_mag(deg) / 1_000_000
}

/// The fractional part of the magnitude expressed in minutes, with six
/// decimal places; always below 60 minutes.
pub open spec fn dms_min_u(deg: int) -> int {
    (dms_mag(deg) % 1_000_000) * 60
}

/// The fractional part of the minutes expressed in seconds, with six
/// decimal places; always below 60 seconds.
pub open spec fn dms_sec_u(deg: int) -> int {
    (dms_min_u(deg) % 1_000_000) * 60
}

/// The seconds overflow: a seconds value that would display as 60.00 at
/// two decimal places is treated as a whole extra minute.
pub open spec fn dms_carry_sec(deg: int) -> bool {
    dms_sec_u(deg) >= 59_995_000
}

/// The minutes value (six decimal places) after the seconds carry.
pub open spec fn dms_min_carried(deg: int) -> int {
    if dms_carry_sec(deg) {
        dms_min_u(deg) + 1_000_000
    } else {
        dms_min_u(deg)
    }
}

/// The minutes overflow: a minutes value of 59.9995 or more is treated as
/// a whole extra degree.
pub open spec fn dms_carry_min(deg: int) -> bool {
    dms_min_carried(deg) >= 59_999_500
}

/// The sign flag of the decomposition comes from the sign of the original
/// degree value, independent of the whole-degree magnitude.
pub open spec fn dms_negative(deg: int) -> bool {
    deg < 0
}

/// The whole-degree magnitude of the decomposition, after the carry.
pub open spec fn dms_degrees(deg: int) -> int {
    if dms_carry_min(deg) {
        dms_whole(deg) + 1
    } else {
        dms_whole(deg)
    }
}

/// The whole minutes of the decomposition, after both carries.
pub open spec fn dms_minutes(deg: int) -> int {
    if dms_carry_min(deg) {
        0
    } else {
        dms_min_carried(deg) / 1_000_000
    }
}

/// The seconds (six decimal places) of the decomposition, after the carry.
pub open spec fn dms_seconds(deg: int) -> int {
    if dms_carry_sec(deg) {
        0
    } else {
        dms_sec_u(deg)
    }
}

/// Utility to go easily from a decimal degree to a degrees/minutes/seconds
/// position.  Whole degrees and minutes truncate toward zero; seconds that
/// would display as 60.00 carry into the minutes, and minutes of 59.9995
/// or more carry into the degrees.
pub fn deg_to_dms(degrees: i64) -> (r: DegMinSec)
    requires
        -32_766_000_000 <= degrees <= 32_766_000_000,
    ensures
        r.negative == dms_negative(degrees as int),
        r.degrees == dms_degrees(degrees as int),
        r.minutes == dms_minutes(degrees as int),
        r.seconds == dms_seconds(degrees as int),
        0 <= r.degrees <= 32767,
        r.minutes <= 59,
        0 <= r.seconds < 60_000_000,
{
    let mag: i64 = if degrees < 0 {
        -degrees
    } else {
        degrees
    };
    let n_deg: i64 = div_floor_i64(mag, 1_000_000);
    let deg_frac: i64 = crate::num::rem_euclid_i64(mag, 1_000_000);
    let min_u: i64 = deg_frac * 60;
    let m_whole: i64 = div_floor_i64(min_u, 1_000_000);
    let min_frac: i64 = crate::num::rem_euclid_i64(min_u, 1_000_000);
    let sec_u: i64 = min_frac * 60;
    proof {
        lemma_fundamental_div_mod(mag as int, 1_000_000);
        lemma_fundamental_div_mod(min_u as int, 1_000_000);
    }

    let carried_sec: i64 = if sec_u >= 59_995_000 {
        0
    } else {
        sec_u
    };
    let min_carried: i64 = if sec_u >= 59_995_000 {
        min_u + 1_000_000
    } else {
        min_u
    };

    let out_deg: i64;
    let out_min: i64;
    if min_carried >= 59_999_500 {
        out_deg = n_deg + 1;
        out_min = 0;
    } else {
        out_deg = n_deg;
        out_min = div_floor_i64(min_carried, 1_000_000);
        proof {
            lemma_fundamental_div_mod(min_carried as int, 1_000_000);
        }
    }

    DegMinSec {
        negative: degrees < 0,
        degrees: out_deg as i16,
        minutes: out_min as u8,
        seconds: carried_sec,
    }
}

/// Converting a degree value to degrees/minutes/seconds and back recovers
/// it exactly, as long as neither the seconds nor the minutes of the
/// decomposition land on the carry boundary.
pub proof fn lemma_deg_dms_round_trip(deg: int)
    requires
        -90_000_000 < deg < 90_000_000,
        !dms_carry_sec(deg),
        !dms_carry_min(deg),
    ensures
        dec_deg(dms_negative(deg), dms_degrees(deg), dms_minutes(deg), dms_seconds(deg)) == deg,
{
    let mag: int = dms_mag(deg);
    let d0: int = mag / 1_000_000;
    let f: int = mag % 1_000_000;
    lemma_fundamental_div_mod(mag, 1_000_000);
    assert(mag == 1_000_000 * d0 + f);

    let min_u: int = f * 60;
    let m0: int = min_u / 1_000_000;
    let g: int = min_u % 1_000_000;
    lemma_fundamental_div_mod(min_u, 1_000_000);
    assert(min_u == 1_000_000 * m0 + g);

    let sec_u: int = g * 60;
    assert(dms_minutes(deg) == m0);
    assert(dms_seconds(deg) == sec_u);
    assert(dms_degrees(deg) == d0);

    let total: int = d0 * 3_600_000_000 + m0 * 60_000_000 + sec_u;
    assert(total == 3600 * mag);
    assert(total / 3600 == mag) by {
        lemma_div_multiples_vanish(mag, 3600);
    }
}

} // verus!
