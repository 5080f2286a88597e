//! Greenwich mean sidereal time.
//!
//! The hour angle of the mean vernal equinox at Greenwich, in degrees,
//! from the classical polynomial in Julian centuries since the J2000.0
//! epoch, wrapped into `[0, 360)`.  The computation runs at nine decimal
//! places in `i128`; the result is returned at six decimal places.

use vstd::prelude::*;

verus! {

use crate::date::Date;
use crate::julian_day::{julian_day_micros, lemma_julian_day_range};
use crate::num::{div_floor_i128, lemma_div_bounds, rem_euclid_i128, scaled_pow_step, term};

/// Greenwich mean sidereal time at nine decimal places of a degree, from a
/// Julian Day with six decimal places: `280.46061837 + 360.98564736629 d +
/// 0.000387933 T^2 - T^3 / 38710000` with `d` the days and `T` the Julian
/// centuries since the J2000.0 epoch, wrapped into a full turn.
pub open spec fn sidereal_nanos(jd: int) -> int {
    let d: int = (jd - 2_451_545_000_000) * 1000;
    let t: int = d / 36525;
    let t2: int = t * t / 1_000_000_000;
    let t3: int = t2 * t / 1_000_000_000;
    let theta: int = 280_460_618_370 + d * 36_098_564_736_629 / 100_000_000_000 + t2 * 387_933
        / 1_000_000_000 - t3 / 38_710_000;
    theta % 360_000_000_000
}

/// Greenwich mean sidereal time of a date, in degrees with six decimal
/// places, in `[0, 360)`.
pub open spec fn mean_sidereal_micros(year: int, month: int, day: int) -> int {
    sidereal_nanos(julian_day_micros(year, month, day)) / 1000
}

/// Computes the Greenwich mean sidereal time of a date, in degrees with
/// six decimal places, normalized into `[0, 360)`.
pub fn get_mean_sidereal_time_from_date(date: &Date) -> (r: i64)
    requires
        1 <= date.month <= 12,
        0 <= date.day <= 100_000_000_000_000,
    ensures
        r == mean_sidereal_micros(date.year as int, date.month as int, date.day as int),
        0 <= r < 360_000_000,
{
    proof {
        lemma_julian_day_range(date.year as int, date.month as int, date.day as int);
    }
    let jd: i64 = date.to_julian_day().get_value();
    let d: i128 = (jd as i128 - 2_451_545_000_000) * 1000;
    proof {
        lemma_div_bounds(d as int, -14_452_000_000_000_000, 111_549_000_000_000_000, 36525);
    }
    let t: i128 = div_floor_i128(d, 36525);
    let t2: i128 = scaled_pow_step(t, t, Ghost(3_200_000_000_000int), Ghost(3_200_000_000_000int));
    let t3: i128 = scaled_pow_step(
        t2,
        t,
        Ghost(10_240_000_000_000_000int),
        Ghost(3_200_000_000_000int),
    );
    let day_term: i128 = term(
        d,
        36_098_564_736_629,
        100_000_000_000,
        Ghost(112_000_000_000_000_000int),
    );
    let square_term: i128 = term(t2, 387_933, 1_000_000_000, Ghost(10_240_000_000_000_000int));
    let cube_term: i128 = term(t3, 1, 38_710_000, Ghost(32_768_000_000_000_000_000int));
    let theta: i128 = 280_460_618_370 + day_term + square_term - cube_term;
    let wrapped: i128 = rem_euclid_i128(theta, 360_000_000_000);
    proof {
        lemma_div_bounds(wrapped as int, 0, 359_999_999_999, 1000);
    }
    let micros: i128 = div_floor_i128(wrapped, 1000);
    micros as i64
}

} // verus!
