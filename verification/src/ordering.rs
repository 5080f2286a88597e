//! Chronological ordering of Julian Days.
//!
//! Julian Days constructed from real calendar dates grow strictly with the
//! dates: whoever comes later in the calendar gets the larger day count.
//! The one caveat is the Gregorian reform: the conversion treats October
//! 1582 from day 4.0 (included) to day 14.0 (excluded) as already
//! Gregorian, so those ten removed days alias later dates and fall out of
//! the ordering ([`in_reform_gap`]).
//!
//! The proof walks the calendar month by month: the first of each month is
//! exactly one month's days after the first of the month before
//! ([`lemma_month_step`]), except across the reform, where ten days
//! disappear ([`lemma_cutover_month_step`]).

use vstd::prelude::*;

verus! {

use vstd::arithmetic::div_mod::{
    lemma_div_denominator,
    lemma_fundamental_div_mod,
    lemma_fundamental_div_mod_converse_div,
    lemma_hoist_over_denominator,
    lemma_mod_division_less_than_divisor,
    lemma_mod_multiples_basic,
    lemma_mod_multiples_vanish,
};

use crate::julian_day::{
    gregorian_b,
    is_gregorian,
    julian_day_micros,
    month_term,
    year_term,
};

/// The leap-year rule of the calendar a year belongs to: every fourth year
/// in the Julian calendar (through 1582), the century-corrected rule in
/// the Gregorian calendar.
pub open spec fn leap_year(y: int) -> bool {
    if y > 1582 {
        y % 4 == 0 && (y % 100 != 0 || y % 400 == 0)
    } else {
        y % 4 == 0
    }
}

/// How many days a calendar month has.
pub open spec fn days_in_month(y: int, m: int) -> int {
    if m == 2 {
        if leap_year(y) {
            29
        } else {
            28
        }
    } else if m == 4 || m == 6 || m == 9 || m == 11 {
        30
    } else {
        31
    }
}

/// A real calendar date: the month exists, and the fractional day lies
/// within the month (from day 1.0 up to, excluded, one past the last day).
pub open spec fn valid_date(y: int, m: int, d: int) -> bool {
    &&& -32768 <= y <= 32767
    &&& 1 <= m <= 12
    &&& 1_000_000 <= d
    &&& d < (days_in_month(y, m) + 1) * 1_000_000
}

/// The ten days the Gregorian reform removed: October 1582 from day 4.0
/// (included) to day 14.0 (excluded).  The conversion treats them as
/// already Gregorian, so each aliases the date ten days on.
pub open spec fn in_reform_gap(y: int, m: int, d: int) -> bool {
    y == 1582 && m == 10 && 4_000_000 <= d < 14_000_000
}

/// Lexicographic, which is chronological, order on calendar dates.
pub open spec fn date_lt(y1: int, m1: int, d1: int, y2: int, m2: int, d2: int) -> bool {
    y1 < y2 || (y1 == y2 && (m1 < m2 || (m1 == m2 && d1 < d2)))
}

/// The Julian Day at day 1.0 of a month.
pub open spec fn first_of(y: int, m: int) -> int {
    julian_day_micros(y, m, 1_000_000)
}

/// The year that holds the following month.
pub open spec fn succ_year(y: int, m: int) -> int {
    if m == 12 {
        y + 1
    } else {
        y
    }
}

/// The following month.
pub open spec fn succ_month(m: int) -> int {
    if m == 12 {
        1
    } else {
        m + 1
    }
}

/// Stepping the dividend down by one lowers the quotient exactly at the
/// multiples of the divisor.
proof fn lemma_div_step(a: int, b: int)
    requires
        b > 0,
    ensures
        a / b == (a - 1) / b + (if a % b == 0 {
            1int
        } else {
            0int
        }),
{
    lemma_fundamental_div_mod(a, b);
    lemma_mod_division_less_than_divisor(a, b);
    let q: int = a / b;
    let r: int = a % b;
    if r == 0 {
        assert(a - 1 == (q - 1) * b + (b - 1)) by (nonlinear_arith)
            requires
                a == b * q,
        ;
        lemma_fundamental_div_mod_converse_div(a - 1, b, q - 1, b - 1);
    } else {
        assert(a - 1 == q * b + (r - 1)) by (nonlinear_arith)
            requires
                a == b * q + r,
        ;
        lemma_fundamental_div_mod_converse_div(a - 1, b, q, r - 1);
    }
}

/// The values the month contribution takes, one for each shifted month.
pub(crate) proof fn lemma_month_term_values()
    ensures
        month_term(3) == 122,
        month_term(4) == 153,
        month_term(5) == 183,
        month_term(6) == 214,
        month_term(7) == 244,
        month_term(8) == 275,
        month_term(9) == 306,
        month_term(10) == 336,
        month_term(11) == 367,
        month_term(12) == 397,
        month_term(13) == 428,
        month_term(14) == 459,
{
}

/// From one year to the next, the year contribution grows by 365 days,
/// and by one more every fourth year.
proof fn lemma_year_term_step(y: int)
    ensures
        year_term(y) - year_term(y - 1) == 365 + (if y % 4 == 0 {
            1int
        } else {
            0int
        }),
{
    let yy: int = y + 4716;
    assert(year_term(y) == 365 * yy + yy / 4) by {
        lemma_hoist_over_denominator(yy, 365 * yy, 4nat);
    }
    assert(year_term(y - 1) == 365 * (yy - 1) + (yy - 1) / 4) by {
        lemma_hoist_over_denominator(yy - 1, 365 * (yy - 1), 4nat);
    }
    lemma_div_step(yy, 4);
    assert(yy % 4 == y % 4) by {
        lemma_mod_multiples_vanish(1179, y, 4);
    }
}

/// A year divisible by one hundred is divisible by four.
proof fn lemma_mod_hundred(y: int)
    requires
        y % 100 == 0,
    ensures
        y % 4 == 0,
{
    lemma_fundamental_div_mod(y, 100);
    let k: int = y / 100;
    assert(y == (25 * k) * 4) by (nonlinear_arith)
        requires
            y == 100 * k,
    ;
    lemma_mod_multiples_basic(25 * k, 4);
}

/// A year divisible by four hundred is divisible by one hundred.
proof fn lemma_mod_four_hundred(y: int)
    requires
        y % 400 == 0,
    ensures
        y % 100 == 0,
{
    lemma_fundamental_div_mod(y, 400);
    let k: int = y / 400;
    assert(y == (4 * k) * 100) by (nonlinear_arith)
        requires
            y == 400 * k,
    ;
    lemma_mod_multiples_basic(4 * k, 100);
}

/// From one Gregorian year to the next, the correction term drops by one
/// at the turn of a century, except every fourth century.
proof fn lemma_gregorian_b_step(y: int)
    requires
        y >= 1583,
    ensures
        gregorian_b(y) - gregorian_b(y - 1) == (if y % 100 == 0 && y % 400 != 0 {
            -1int
        } else {
            0int
        }),
        y % 100 == 0 ==> y % 4 == 0,
{
    lemma_div_step(y, 100);
    lemma_div_denominator(y, 100, 4);
    lemma_div_denominator(y - 1, 100, 4);
    lemma_div_step(y, 400);
    if y % 400 == 0 {
        lemma_mod_four_hundred(y);
    }
    if y % 100 == 0 {
        lemma_mod_hundred(y);
    }
}

/// The first of the following month comes exactly one month's days after
/// the first of this month — for every month but October 1582, where the
/// reform interferes (see [`lemma_cutover_month_step`]).
pub proof fn lemma_month_step(y: int, m: int)
    requires
        1 <= m <= 12,
        !(y == 1582 && m == 10),
    ensures
        first_of(succ_year(y, m), succ_month(m)) == first_of(y, m) + days_in_month(y, m)
            * 1_000_000,
{
    lemma_month_term_values();
    if m == 2 {
        assert(is_gregorian(y, 2, 1_000_000) == (y >= 1583));
        assert(is_gregorian(y, 3, 1_000_000) == (y >= 1583));
        lemma_year_term_step(y);
        if y >= 1583 {
            lemma_gregorian_b_step(y);
            if y % 400 == 0 {
                lemma_mod_four_hundred(y);
                lemma_mod_hundred(y);
            }
        }
    }
}

/// Across the reform, the first of November 1582 is only 21 days after the
/// first of October 1582: the month has 31 days but the Gregorian
/// correction removes ten.
pub proof fn lemma_cutover_month_step()
    ensures
        first_of(1582, 11) == first_of(1582, 10) + 21_000_000,
{
    lemma_month_term_values();
    assert(!is_gregorian(1582, 10, 1_000_000));
    assert(is_gregorian(1582, 11, 1_000_000));
    assert(gregorian_b(1582) == -10);
}

/// Every valid day of a month, outside the removed reform days, maps to a
/// Julian Day at or after the first of the month and strictly before the
/// first of the next month.
pub proof fn lemma_day_in_month(y: int, m: int, d: int)
    requires
        valid_date(y, m, d),
        !in_reform_gap(y, m, d),
    ensures
        first_of(y, m) <= julian_day_micros(y, m, d),
        julian_day_micros(y, m, d) < first_of(succ_year(y, m), succ_month(m)),
{
    if y == 1582 && m == 10 {
        lemma_cutover_month_step();
        assert(gregorian_b(1582) == -10);
        assert(!is_gregorian(1582, 10, 1_000_000));
        assert(is_gregorian(1582, 10, d) == (d >= 4_000_000));
    } else {
        lemma_month_step(y, m);
        assert(is_gregorian(y, m, d) == is_gregorian(y, m, 1_000_000));
        assert(days_in_month(y, m) >= 28);
    }
}

/// The firsts of months grow along the calendar: any later month starts at
/// or after the start of the month that follows an earlier one.
pub proof fn lemma_first_of_ordered(y1: int, m1: int, y2: int, m2: int)
    requires
        1 <= m1 <= 12,
        1 <= m2 <= 12,
        12 * y1 + m1 < 12 * y2 + m2,
    ensures
        first_of(succ_year(y1, m1), succ_month(m1)) <= first_of(y2, m2),
    decreases 12 * y2 + m2 - (12 * y1 + m1),
{
    let ny: int = succ_year(y1, m1);
    let nm: int = succ_month(m1);
    if ny == y2 && nm == m2 {
    } else {
        if ny == 1582 && nm == 10 {
            lemma_cutover_month_step();
        } else {
            lemma_month_step(ny, nm);
            assert(days_in_month(ny, nm) >= 28);
        }
        lemma_first_of_ordered(ny, nm, y2, m2);
    }
}

/// Chronological order of Julian Days: of two valid calendar dates outside
/// the removed reform days, the chronologically earlier one has the
/// strictly smaller Julian Day.
pub proof fn lemma_chronological_order(
    y1: int,
    m1: int,
    d1: int,
    y2: int,
    m2: int,
    d2: int,
)
    requires
        valid_date(y1, m1, d1),
        valid_date(y2, m2, d2),
        !in_reform_gap(y1, m1, d1),
        !in_reform_gap(y2, m2, d2),
        date_lt(y1, m1, d1, y2, m2, d2),
    ensures
        julian_day_micros(y1, m1, d1) < julian_day_micros(y2, m2, d2),
{
    if y1 == y2 && m1 == m2 {
        if y1 == 1582 && m1 == 10 {
            assert(gregorian_b(1582) == -10);
            assert(is_gregorian(1582, 10, d1) == (d1 >= 4_000_000));
            assert(is_gregorian(1582, 10, d2) == (d2 >= 4_000_000));
        } else {
            assert(is_gregorian(y1, m1, d1) == is_gregorian(y2, m2, d2));
        }
    } else {
        assert(12 * y1 + m1 < 12 * y2 + m2);
        lemma_day_in_month(y1, m1, d1);
        lemma_first_of_ordered(y1, m1, y2, m2);
        lemma_day_in_month(y2, m2, d2);
    }
}

} // verus!
