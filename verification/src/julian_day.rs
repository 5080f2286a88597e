//! Julian Day numbers: a continuous count of days (six decimal places)
//! since noon of the first of January, 4713 BCE, in the proleptic Julian
//! calendar.
//!
//! The conversion follows the classical astronomical algorithm: January and
//! February count as months 13 and 14 of the previous year, a correction
//! term `b` accounts for the Gregorian reform for dates on or after the
//! October 1582 cutover, and all divisions round toward negative infinity.

use vstd::prelude::*;

verus! {

use vstd::arithmetic::div_mod::{
    lemma_div_is_ordered,
    lemma_div_multiples_vanish,
    lemma_fundamental_div_mod,
    lemma_mod_division_less_than_divisor,
};

use crate::date::Date;
use crate::num::{div_floor_i64, lemma_div_between, lemma_div_bounds, rem_euclid_i64};
use crate::AstroError;

/// A continuous Julian Day number, with six decimal places.
#[derive(Clone, Copy, Debug, PartialEq, Eq, PartialOrd, Ord, Structural)]
pub struct JulianDay {
    value: i64,
}

/// The civil year shifted for the formula: January and February belong to
/// the previous year.
pub open spec fn shifted_year(year: int, month: int) -> int {
    if month <= 2 {
        year - 1
    } else {
        year
    }
}

/// The civil month shifted for the formula: January and February become
/// months 13 and 14.
pub open spec fn shifted_month(month: int) -> int {
    if month <= 2 {
        month + 12
    } else {
        month
    }
}

/// Whether a date falls under the Gregorian calendar rule of the
/// conversion: on or after the October 1582 cutover (the day threshold
/// encodes the ten-day gap of the reform).
pub open spec fn is_gregorian(year: int, month: int, day: int) -> bool {
    let sy: int = shifted_year(year, month);
    let sm: int = shifted_month(month);
    sy > 1582 || (sy == 1582 && (sm > 10 || (sm == 10 && day >= 4_000_000)))
}

/// The Gregorian correction term: `2 - century + century / 4` of the
/// shifted year (only evaluated for years past 1581, so the divisions
/// cannot go negative).
pub open spec fn gregorian_b(sy: int) -> int {
    2 - sy / 100 + (sy / 100) / 4
}

/// The correction term of a date: the Gregorian term under the Gregorian
/// rule, zero under the Julian calendar.
pub open spec fn jd_correction(year: int, month: int, day: int) -> int {
    if is_gregorian(year, month, day) {
        gregorian_b(shifted_year(year, month))
    } else {
        0
    }
}

/// The year contribution: `floor(365.25 * (shifted_year + 4716))`, in whole
/// days.
pub open spec fn year_term(sy: int) -> int {
    1461 * (sy + 4716) / 4
}

/// The month contribution: `floor(30.6001 * (shifted_month + 1))`, in whole
/// days.
pub open spec fn month_term(sm: int) -> int {
    306001 * (sm + 1) / 10000
}

/// The Julian Day number of a calendar date, with six decimal places:
/// the whole-day terms plus the fractional day, minus 1524.5 days.
pub open spec fn julian_day_micros(year: int, month: int, day: int) -> int {
    let sy: int = shifted_year(year, month);
    let sm: int = shifted_month(month);
    (year_term(sy) + month_term(sm) + jd_correction(year, month, day)) * 1_000_000 + day
        - 1_524_500_000
}

/// Bounds of the whole-day terms, used to rule out overflow wherever a
/// Julian Day is combined with other quantities.
pub proof fn lemma_julian_day_range(year: int, month: int, day: int)
    requires
        -32768 <= year <= 32767,
        1 <= month <= 12,
        0 <= day <= 100_000_000_000_000,
    ensures
        -12_000_000_000_000 <= julian_day_micros(year, month, day) <= 114_000_000_000_000,
{
    let sy: int = shifted_year(year, month);
    let sm: int = shifted_month(month);
    assert(-32769 <= sy <= 32767);
    assert(4 <= sm + 1 <= 15);

    assert(-11_700_000 <= year_term(sy) <= 13_700_000) by {
        assert(-40_985_433 <= 1461 * (sy + 4716) <= 54_762_663);
        lemma_div_is_ordered(-40_985_433, 1461 * (sy + 4716), 4);
        lemma_div_is_ordered(1461 * (sy + 4716), 54_762_663, 4);
    }

    assert(122 <= month_term(sm) <= 459) by {
        assert(1_224_004 <= 306001 * (sm + 1) <= 4_590_015);
        lemma_div_is_ordered(1_224_004, 306001 * (sm + 1), 10000);
        lemma_div_is_ordered(306001 * (sm + 1), 4_590_015, 10000);
    }

    assert(-400 <= jd_correction(year, month, day) <= 2) by {
        if is_gregorian(year, month, day) {
            assert(sy >= 1582);
            let cent: int = sy / 100;
            assert(15 <= cent <= 327) by {
                lemma_div_is_ordered(1582, sy, 100);
                lemma_div_is_ordered(sy, 32767, 100);
                assert(1582int / 100 == 15);
                assert(32767int / 100 == 327);
            }
            assert(3 <= cent / 4 <= 81) by {
                lemma_div_is_ordered(15, cent, 4);
                lemma_div_is_ordered(cent, 327, 4);
            }
        }
    }
}

/// Computes the Julian Day (six decimal places) of a calendar date, or
/// refuses a month outside `1..=12`.
pub fn get_julian_day(date: &Date) -> (r: Result<i64, AstroError>)
    requires
        0 <= date.day <= 100_000_000_000_000,
    ensures
        1 <= date.month <= 12 ==> r is Ok,
        r is Ok ==> 1 <= date.month <= 12 && r->Ok_0 == julian_day_micros(
            date.year as int,
            date.month as int,
            date.day as int,
        ),
        r is Err ==> !(1 <= date.month <= 12) && r->Err_0 == AstroError::InvalidMonth,
{
    if date.month < 1 || date.month > 12 {
        return Err(AstroError::InvalidMonth);
    }

    let sy: i64 = if date.month <= 2 {
        date.year as i64 - 1
    } else {
        date.year as i64
    };
    let sm: i64 = if date.month <= 2 {
        date.month as i64 + 12
    } else {
        date.month as i64
    };

    let gregorian: bool = sy > 1582 || (sy == 1582 && (sm > 10 || (sm == 10 && date.day
        >= 4_000_000)));
    let b: i64 = if gregorian {
        let cent: i64 = div_floor_i64(sy, 100);
        proof {
            lemma_div_is_ordered(1582, sy as int, 100);
            lemma_div_is_ordered(sy as int, 32767, 100);
            assert(1582int / 100 == 15);
            assert(32767int / 100 == 327);
        }
        let quarter: i64 = div_floor_i64(cent, 4);
        proof {
            lemma_div_between(cent as int, 4);
        }
        2 - cent + quarter
    } else {
        0
    };

    let year_part: i64 = div_floor_i64(1461 * (sy + 4716), 4);
    proof {
        lemma_div_is_ordered(-40_985_433, 1461 * (sy as int + 4716), 4);
        lemma_div_is_ordered(1461 * (sy as int + 4716), 54_762_663, 4);
    }
    let month_part: i64 = div_floor_i64(306001 * (sm + 1), 10000);
    proof {
        lemma_div_is_ordered(1_224_004, 306001 * (sm as int + 1), 10000);
        lemma_div_is_ordered(306001 * (sm as int + 1), 4_590_015, 10000);
    }

    Ok((year_part + month_part + b) * 1_000_000 + date.day - 1_524_500_000)
}

/// The whole part of a Julian Day shifted by half a day, so that it counts
/// civil days rather than noon-to-noon days.
pub open spec fn cd_z(jd: int) -> int {
    (jd + 500_000) / 1_000_000
}

/// The fractional part (six decimal places) left over by `cd_z`.
pub open spec fn cd_f(jd: int) -> int {
    (jd + 500_000) % 1_000_000
}

/// The count of Gregorian century corrections:
/// `floor((z - 1867216.25) / 36524.25)`, only used past the reform.
pub open spec fn cd_alfa(jd: int) -> int {
    (cd_z(jd) * 100 - 186_721_625) / 3_652_425
}

/// The day count brought back onto the Julian calendar's rhythm: unchanged
/// before the reform, shifted by the century corrections after it.
pub open spec fn cd_a(jd: int) -> int {
    if cd_z(jd) < 2_299_161 {
        cd_z(jd)
    } else {
        cd_z(jd) + 1 + cd_alfa(jd) - cd_alfa(jd) / 4
    }
}

/// The day count rebased so that whole years divide it evenly.
pub open spec fn cd_b(jd: int) -> int {
    cd_a(jd) + 1524
}

/// The year counter of the decomposition: `floor((b - 122.1) / 365.25)`.
pub open spec fn cd_c(jd: int) -> int {
    (20 * cd_b(jd) - 2442) / 7305
}

/// The days consumed by whole years: `floor(365.25 * c)`.
pub open spec fn cd_d(jd: int) -> int {
    1461 * cd_c(jd) / 4
}

/// The month counter of the decomposition: `floor((b - d) / 30.6001)`;
/// always between 4 and 15.
pub open spec fn cd_e(jd: int) -> int {
    (cd_b(jd) - cd_d(jd)) * 10000 / 306001
}

/// The day of the month (six decimal places) recovered from a Julian Day.
pub open spec fn cd_day_micros(jd: int) -> int {
    (cd_b(jd) - cd_d(jd) - 306001 * cd_e(jd) / 10000) * 1_000_000 + cd_f(jd)
}

/// The month recovered from a Julian Day; always in `1..=12`.
pub open spec fn cd_month(jd: int) -> int {
    if cd_e(jd) < 14 {
        cd_e(jd) - 1
    } else {
        cd_e(jd) - 13
    }
}

/// The year recovered from a Julian Day.
pub open spec fn cd_year(jd: int) -> int {
    if cd_month(jd) > 2 {
        cd_c(jd) - 4716
    } else {
        cd_c(jd) - 4715
    }
}

/// The calendar decomposition of a Julian Day always lands on a real
/// month, a day below 367, and a year a 16-bit integer can hold: the month
/// counter `e` is pinched between 4 and 15 because `b - d`, the days left
/// after whole years, lies between 123 and 488.
pub proof fn lemma_calendar_ranges(jd: int)
    requires
        -10_000_000_000_000 <= jd <= 13_000_000_000_000,
    ensures
        -10_000_000 <= cd_z(jd) <= 13_000_000,
        0 <= cd_f(jd) < 1_000_000,
        cd_z(jd) >= 2_299_161 ==> 11 <= cd_alfa(jd) <= 304 && 2 <= cd_alfa(jd) / 4 <= 76,
        -10_000_000 <= cd_a(jd) <= 13_000_305,
        -27_375 <= cd_c(jd) <= 35_596,
        -9_998_719 <= cd_d(jd) <= 13_001_439,
        123 <= cd_b(jd) - cd_d(jd) <= 488,
        4 <= cd_e(jd) <= 15,
        122 <= 306001 * cd_e(jd) / 10000 <= 459,
        306001 * cd_e(jd) / 10000 <= cd_b(jd) - cd_d(jd),
        1 <= cd_month(jd) <= 12,
        -32_091 <= cd_year(jd) <= 30_881,
        0 <= cd_day_micros(jd) < 367_000_000,
{
    let zh: int = jd + 500_000;
    lemma_div_bounds(zh, -9_999_999_500_000, 13_000_000_500_000, 1_000_000);
    lemma_mod_division_less_than_divisor(zh, 1_000_000);
    let z: int = cd_z(jd);

    if z >= 2_299_161 {
        lemma_div_bounds(z * 100 - 186_721_625, 43_194_475, 1_113_278_375, 3_652_425);
        assert(43_194_475int / 3_652_425 == 11);
        assert(1_113_278_375int / 3_652_425 == 304);
        lemma_div_bounds(cd_alfa(jd), 11, 304, 4);
    }

    let b: int = cd_b(jd);
    let c: int = cd_c(jd);
    let d: int = cd_d(jd);
    assert(-9_998_476 <= b <= 13_001_829);
    lemma_div_bounds(20 * b - 2442, -199_971_962, 260_034_138, 7305);
    assert((-199_971_962int) / 7305 == -27_375);
    assert(260_034_138int / 7305 == 35_596);
    lemma_div_bounds(1461 * c, -39_994_875, 52_005_756, 4);
    assert((-39_994_875int) / 4 == -9_998_719);

    lemma_fundamental_div_mod(20 * b - 2442, 7305);
    lemma_mod_division_less_than_divisor(20 * b - 2442, 7305);
    let r1: int = (20 * b - 2442) % 7305;
    lemma_fundamental_div_mod(1461 * c, 4);
    lemma_mod_division_less_than_divisor(1461 * c, 4);
    let r2: int = (1461 * c) % 4;
    assert(20 * b == 7305 * c + 2442 + r1);
    assert(20 * d == 7305 * c - 5 * r2);
    assert(2442 <= 20 * (b - d) <= 9761);
    assert(123 <= b - d <= 488);

    let e: int = cd_e(jd);
    lemma_div_bounds((b - d) * 10000, 1_230_000, 4_880_000, 306001);
    assert(1_230_000int / 306001 == 4);
    assert(4_880_000int / 306001 == 15);

    let msub: int = 306001 * e / 10000;
    lemma_div_bounds(306001 * e, 1_224_004, 4_590_015, 10000);

    lemma_fundamental_div_mod((b - d) * 10000, 306001);
    lemma_mod_division_less_than_divisor((b - d) * 10000, 306001);
    assert(306001 * e <= (b - d) * 10000);
    lemma_div_is_ordered(306001 * e, (b - d) * 10000, 10000);
    lemma_div_multiples_vanish(b - d, 10000);
    assert(((b - d) * 10000) / 10000 == b - d);
    assert(msub <= b - d);
}

impl JulianDay {
    /// The day count (six decimal places) that this Julian Day holds.
    pub closed spec fn spec_value(self) -> int {
        self.value as int
    }

    pub fn new(value: i64) -> (r: Self)
        ensures
            r.spec_value() == value,
    {
        Self { value }
    }

    pub fn get_value(&self) -> (r: i64)
        ensures
            r == self.spec_value(),
    {
        self.value
    }

    pub fn from_date(date: &Date) -> (r: Self)
        requires
            1 <= date.month <= 12,
            0 <= date.day <= 100_000_000_000_000,
        ensures
            r.spec_value() == julian_day_micros(date.year as int, date.month as int, date.day as int),
    {
        let jd: Result<i64, AstroError> = get_julian_day(date);
        Self { value: jd.unwrap() }
    }

    /// Recovers the calendar date of a Julian Day: the whole and fractional
    /// day are split at the half-day shift, century corrections undo the
    /// Gregorian reform for days past the cutover, and whole years and
    /// months are peeled off the remaining day count.  The month always
    /// lands in `1..=12` and the day below 367 (see
    /// [`lemma_calendar_ranges`]).
    pub fn to_calendar_date(&self) -> (r: Date)
        requires
            -10_000_000_000_000 <= self.spec_value() <= 13_000_000_000_000,
        ensures
            r.year == cd_year(self.spec_value()),
            r.month == cd_month(self.spec_value()),
            r.day == cd_day_micros(self.spec_value()),
            1 <= r.month <= 12,
            0 <= r.day < 367_000_000,
            r.hms.hours == 0,
            r.hms.minutes == 0,
            r.hms.seconds == 0,
    {
        proof {
            lemma_calendar_ranges(self.value as int);
        }
        let jdh: i64 = self.value + 500_000;
        let z: i64 = div_floor_i64(jdh, 1_000_000);
        let f: i64 = rem_euclid_i64(jdh, 1_000_000);

        let a: i64 = if z < 2_299_161 {
            z
        } else {
            let alfa: i64 = div_floor_i64(z * 100 - 186_721_625, 3_652_425);
            let alfa_quarter: i64 = div_floor_i64(alfa, 4);
            z + 1 + alfa - alfa_quarter
        };

        let b: i64 = a + 1524;
        let c: i64 = div_floor_i64(20 * b - 2442, 7305);
        let d: i64 = div_floor_i64(1461 * c, 4);
        let e: i64 = div_floor_i64((b - d) * 10000, 306001);

        let month_days: i64 = div_floor_i64(306001 * e, 10000);
        let day: i64 = (b - d - month_days) * 1_000_000 + f;

        let month: i64 = if e < 14 {
            e - 1
        } else {
            e - 13
        };
        let year: i64 = if month > 2 {
            c - 4716
        } else {
            c - 4715
        };

        Date::new(year as i16, month as u8, day)
    }

    /// The modified Julian Day: the day count less 2400000.5 days.
    pub fn to_modified_jd(&self) -> (r: i64)
        requires
            self.spec_value() - 2_400_000_500_000 >= i64::MIN,
        ensures
            r == self.spec_value() - 2_400_000_500_000,
    {
        self.value - 2_400_000_500_000
    }
}

} // verus!
