//! Proleptic calendar dates.
//!
//! A [`Date`] holds a signed year (years at or below zero are proleptic), a
//! month in `1..=12`, and a day-of-month with six decimal places that
//! carries the fraction of the day (`4_810_000` is day 4.81, about 19:26).
//! A date may also carry an hours/minutes/seconds component, kept for
//! display purposes only: it takes no part in any computation.

use vstd::prelude::*;

verus! {

use vstd::arithmetic::div_mod::{lemma_basic_div, lemma_div_is_ordered};

use crate::julian_day::{julian_day_micros, lemma_julian_day_range, JulianDay};
use crate::num::{div_floor_i64, rem_euclid_i64};
use crate::HoursMinSec;

/// A calendar date: year, month, fractional day, and a display-only
/// hours/minutes/seconds component.
#[derive(Clone, Copy, Debug)]
pub struct Date {
    pub year: i16,
    pub month: u8,
    pub day: i64,
    pub hms: HoursMinSec,
}

impl Date {
    #[must_use]
    pub fn new(year: i16, month: u8, day: i64) -> (r: Self)
        ensures
            r.year == year,
            r.month == month,
            r.day == day,
            r.hms.hours == 0,
            r.hms.minutes == 0,
            r.hms.seconds == 0,
    {
        Self { year, month, day, hms: HoursMinSec { hours: 0, minutes: 0, seconds: 0 } }
    }

    /// Create a `Date` from values: year, month, day, hours, minutes,
    /// seconds.  The time of day is display-only and is not folded into
    /// the fractional day.
    #[must_use]
    pub fn from_full_date(
        year: i16,
        month: u8,
        day: i64,
        hours: u8,
        minutes: u8,
        seconds: i64,
    ) -> (r: Self)
        ensures
            r.year == year,
            r.month == month,
            r.day == day,
            r.hms.hours == hours,
            r.hms.minutes == minutes,
            r.hms.seconds == seconds,
    {
        Self { year, month, day, hms: HoursMinSec { hours, minutes, seconds } }
    }

    #[must_use]
    pub fn to_julian_day(&self) -> (r: JulianDay)
        requires
            1 <= self.month <= 12,
            0 <= self.day <= 100_000_000_000_000,
        ensures
            r.spec_value() == julian_day_micros(self.year as int, self.month as int, self.day as int),
    {
        JulianDay::from_date(self)
    }

    /// Returns the interval between two dates, in days with six decimal
    /// places: the absolute difference of their Julian Days.
    #[must_use]
    pub fn interval(&self, other: &Self) -> (r: i64)
        requires
            1 <= self.month <= 12,
            0 <= self.day <= 100_000_000_000_000,
            1 <= other.month <= 12,
            0 <= other.day <= 100_000_000_000_000,
        ensures
            ({
                let a: int = julian_day_micros(self.year as int, self.month as int, self.day as int);
                let b: int = julian_day_micros(
                    other.year as int,
                    other.month as int,
                    other.day as int,
                );
                r == if a > b {
                    a - b
                } else {
                    b - a
                }
            }),
    {
        proof {
            lemma_julian_day_range(self.year as int, self.month as int, self.day as int);
            lemma_julian_day_range(other.year as int, other.month as int, other.day as int);
        }
        let self_jd: JulianDay = self.to_julian_day();
        let other_jd: JulianDay = other.to_julian_day();
        let a: i64 = self_jd.get_value();
        let b: i64 = other_jd.get_value();

        if a > b {
            a - b
        } else {
            b - a
        }
    }

    /// Returns the day of the week of a calendar date (0 is Sunday, 3 is
    /// Wednesday, 6 is Saturday): the whole part of the Julian Day plus a
    /// day and a half, modulo seven.
    #[must_use]
    pub fn week_day(&self) -> (r: u8)
        requires
            1 <= self.month <= 12,
            0 <= self.day <= 100_000_000_000_000,
            julian_day_micros(self.year as int, self.month as int, self.day as int) + 1_500_000
                >= 0,
        ensures
            r == (julian_day_micros(self.year as int, self.month as int, self.day as int)
                + 1_500_000) / 1_000_000 % 7,
            r <= 6,
    {
        proof {
            lemma_julian_day_range(self.year as int, self.month as int, self.day as int);
        }
        let jd: i64 = self.to_julian_day().get_value();
        let whole: i64 = div_floor_i64(jd + 1_500_000, 1_000_000);
        let wd: i64 = rem_euclid_i64(whole, 7);
        wd as u8
    }

    /// Whether the year is a leap year.  No real leap-year rule is applied
    /// here: the answer is always `false`, a documented limitation that
    /// `year_day` inherits.
    #[must_use]
    pub fn is_leap(&self) -> (r: bool)
        ensures
            r == false,
    {
        false
    }

    /// The approximate day of the year: exact for non-leap years, one short
    /// after February in leap years because `is_leap` never answers `true`.
    #[must_use]
    pub fn year_day(&self) -> (r: u16)
        requires
            1 <= self.month <= 12,
            0 <= self.day < 32_000_000,
        ensures
            r == 275 * self.month as int / 9 - 2 * ((self.month as int + 9) / 12)
                + self.day as int / 1_000_000 - 30,
    {
        let month_part: i64 = div_floor_i64(275 * self.month as i64, 9);
        let correction: i64 = div_floor_i64(self.month as i64 + 9, 12);
        let day_part: i64 = div_floor_i64(self.day, 1_000_000);
        proof {
            lemma_div_is_ordered(275, 275 * self.month as int, 9);
            lemma_div_is_ordered(275 * self.month as int, 3300, 9);
            assert(275int / 9 == 30);
            assert(3300int / 9 == 366);
            if self.month <= 2 {
                lemma_basic_div(self.month as int + 9, 12);
            } else {
                lemma_div_is_ordered(12, self.month as int + 9, 12);
                lemma_div_is_ordered(self.month as int + 9, 21, 12);
                assert(12int / 12 == 1);
                assert(21int / 12 == 1);
                lemma_div_is_ordered(825, 275 * self.month as int, 9);
                assert(825int / 9 == 91);
            }
            lemma_div_is_ordered(0, self.day as int, 1_000_000);
            lemma_div_is_ordered(self.day as int, 31_999_999, 1_000_000);
            assert(31_999_999int / 1_000_000 == 31);
        }
        let total: i64 = month_part - 2 * correction + day_part - 30;
        total as u16
    }
}

} // verus!
