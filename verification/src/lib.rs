//! Astronomical time and coordinate conversions over exact fixed-point
//! arithmetic.
//!
//! The crate converts proleptic calendar dates to and from continuous Julian
//! Day numbers across the Julian/Gregorian calendar boundary, estimates the
//! difference between dynamical and universal time, computes Greenwich mean
//! sidereal time, and normalizes angles between decimal degrees and
//! sexagesimal forms.
//!
//! Fractional quantities (days, degrees, seconds of arc or of time) are
//! decimal fixed-point values with six decimal places, held in `i64`: a
//! `day` of `4_810_000` is day 4.81 of the month, a degree value of
//! `197_693_195` is 197.693195 degrees.  All arithmetic is exact integer
//! arithmetic, and every division site documents its rounding rule.

use vstd::prelude::*;

pub mod date;
pub mod dynamical_time;
pub mod julian_day;
pub mod num;
pub mod ordering;
pub mod round_trip;
pub mod sidereal_time;
pub mod transform;

verus! {

use crate::num::rem_euclid_i64;

/// Why a conversion was refused.
#[derive(Clone, Copy, Debug, PartialEq, Eq, Structural)]
pub enum AstroError {
    /// A month outside `1..=12` was passed to a Julian Day conversion.
    InvalidMonth,
    /// Dynamical time was requested for a year outside the supported
    /// piecewise model (before -1999, after 2999, or in the 2100..=2149 gap).
    UnsupportedYearRange,
}

/// Seconds (with six decimal places) rounded to hundredths, halves rounding
/// up.  Equality of sexagesimal values compares seconds at this precision to
/// absorb conversion noise.
pub open spec fn seconds_centis(s: int) -> int {
    (s + 5000) / 10000
}

/// Rework a big angle so it can fit in the standard range of 0 to 360
/// degrees: the result is the unique value in `[0, 360)` that differs from
/// the input by a whole number of turns (negative angles wrap upward).
pub fn fit_degrees(orig_angle: i64) -> (r: i64)
    ensures
        r == orig_angle as int % 360_000_000,
        0 <= r < 360_000_000,
{
    rem_euclid_i64(orig_angle, 360_000_000)
}

/// Representation of right ascension coordinates (or RA shortly) in hours,
/// minutes and seconds.  `seconds` carries six decimal places.
#[derive(Clone, Copy, Debug)]
pub struct HoursMinSec {
    pub hours: u8,
    pub minutes: u8,
    pub seconds: i64,
}

impl HoursMinSec {
    #[must_use]
    pub fn new(h: u8, m: u8, s: i64) -> (r: Self)
        ensures
            r.hours == h,
            r.minutes == m,
            r.seconds == s,
    {
        Self { hours: h, minutes: m, seconds: s }
    }

    #[must_use]
    pub fn from_degrees(deg: i64) -> (r: Self)
        requires
            0 <= deg < 360_000_000,
        ensures
            r.hours == crate::transform::ra_hours(deg as int),
            r.minutes == crate::transform::ra_minutes(deg as int),
            r.seconds == crate::transform::ra_seconds(deg as int),
    {
        crate::transform::deg_to_ra(deg)
    }

    /// Tolerant equality: hours and minutes must match exactly, seconds are
    /// compared rounded to two decimal places.
    pub fn approx_eq(&self, other: &Self) -> (r: bool)
        ensures
            r == (self.hours == other.hours && self.minutes == other.minutes
                && seconds_centis(self.seconds as int) == seconds_centis(other.seconds as int)),
    {
        let self_centis: i64 = crate::num::round_to_centis(self.seconds);
        let other_centis: i64 = crate::num::round_to_centis(other.seconds);
        self.hours == other.hours && self.minutes == other.minutes && self_centis == other_centis
    }
}

/// Representation of a position in degrees, minutes and seconds.  The sign
/// is carried out-of-band in `negative`, so that a negative angle smaller
/// than one degree keeps its sign; `degrees` is the magnitude.  `seconds`
/// carries six decimal places.
#[derive(Clone, Copy, Debug)]
pub struct DegMinSec {
    pub negative: bool,
    pub degrees: i16,
    pub minutes: u8,
    pub seconds: i64,
}

impl DegMinSec {
    #[must_use]
    pub fn new(d: i16, m: u8, s: i64) -> (r: Self)
        requires
            d > i16::MIN,
        ensures
            r.negative == (d < 0),
            r.degrees == (if d < 0 { -d as int } else { d as int }),
            r.minutes == m,
            r.seconds == s,
    {
        let degrees: i16;
        let neg: bool;

        if d < 0 {
            neg = true;
            degrees = -d;
        } else {
            neg = false;
            degrees = d;
        }

        Self { negative: neg, degrees, minutes: m, seconds: s }
    }

    #[must_use]
    pub fn from_degrees(deg: i64) -> (r: Self)
        requires
            -32_766_000_000 <= deg <= 32_766_000_000,
        ensures
            r.negative == crate::transform::dms_negative(deg as int),
            r.degrees == crate::transform::dms_degrees(deg as int),
            r.minutes == crate::transform::dms_minutes(deg as int),
            r.seconds == crate::transform::dms_seconds(deg as int),
    {
        crate::transform::deg_to_dms(deg)
    }

    /// Tolerant equality: sign, degrees and minutes must match exactly,
    /// seconds are compared rounded to two decimal places.
    pub fn approx_eq(&self, other: &Self) -> (r: bool)
        ensures
            r == (self.negative == other.negative && self.degrees == other.degrees
                && self.minutes == other.minutes
                && seconds_centis(self.seconds as int) == seconds_centis(other.seconds as int)),
    {
        let self_centis: i64 = crate::num::round_to_centis(self.seconds);
        let other_centis: i64 = crate::num::round_to_centis(other.seconds);
        self.negative == other.negative && self.degrees == other.degrees
            && self.minutes == other.minutes && self_centis == other_centis
    }
}

/// A declination is a position in degrees, minutes and seconds.
pub type Declination = DegMinSec;

/// A right ascension is a position in hours, minutes and seconds.
pub type RightAscension = HoursMinSec;

/// A terrestrial position: longitude and latitude.
pub struct LongLatPosition {
    pub long: DegMinSec,
    pub lat: DegMinSec,
}

} // verus!
