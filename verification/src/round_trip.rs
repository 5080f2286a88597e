//! The calendar round trip: converting a date to its Julian Day and back
//! recovers the date exactly.
//!
//! The one exception is October 1582: the conversion reads days 4.0 through
//! 14.0 as already Gregorian (they alias the dates ten days on), and days
//! 14.0 through 15.0 land on Julian day counts that decode as early
//! October; both are left out.  Everywhere else the decomposition of
//! [`JulianDay::to_calendar_date`](crate::julian_day::JulianDay::to_calendar_date)
//! inverts [`get_julian_day`](crate::julian_day::get_julian_day) digit for
//! digit, fractional day included.

use vstd::prelude::*;

verus! {

use vstd::arithmetic::div_mod::{
    lemma_div_is_ordered,
    lemma_div_multiples_vanish_fancy,
    lemma_fundamental_div_mod,
    lemma_fundamental_div_mod_converse_div,
    lemma_fundamental_div_mod_converse_mod,
    lemma_hoist_over_denominator,
    lemma_mod_division_less_than_divisor,
    lemma_mod_multiples_basic,
    lemma_mod_multiples_vanish,
    lemma_small_mod,
};

use crate::julian_day::{
    cd_a,
    cd_b,
    cd_day_micros,
    cd_f,
    cd_month,
    cd_year,
    cd_z,
    gregorian_b,
    is_gregorian,
    julian_day_micros,
    month_term,
    shifted_month,
    shifted_year,
    year_term,
};
use crate::ordering::{
    days_in_month,
    in_reform_gap,
    first_of,
    leap_year,
    lemma_day_in_month,
    lemma_first_of_ordered,
    lemma_month_term_values,
    succ_month,
    succ_year,
    valid_date,
};

/// Splits the fractional day into whole days and the rest, and bounds the
/// whole days by the month's length.
proof fn lemma_split_day(y: int, m: int, d: int)
    requires
        valid_date(y, m, d),
    ensures
        d == 1_000_000 * (d / 1_000_000) + d % 1_000_000,
        0 <= d % 1_000_000 < 1_000_000,
        1 <= d / 1_000_000 <= days_in_month(y, m),
{
    lemma_fundamental_div_mod(d, 1_000_000);
    lemma_mod_division_less_than_divisor(d, 1_000_000);
    lemma_div_is_ordered(1_000_000, d, 1_000_000);
    lemma_div_is_ordered(d, days_in_month(y, m) * 1_000_000 + 999_999, 1_000_000);
    lemma_div_multiples_vanish_fancy(days_in_month(y, m), 999_999, 1_000_000);
}

/// The core of the inversion: once the rebased day count `b` of the
/// decomposition is known to be the year term plus the month term plus the
/// whole day, the year, month and fractional day all come back exactly.
proof fn lemma_inversion_from_b(y: int, m: int, d: int)
    requires
        valid_date(y, m, d),
        cd_b(julian_day_micros(y, m, d)) == year_term(shifted_year(y, m)) + month_term(
            shifted_month(m),
        ) + d / 1_000_000,
        cd_f(julian_day_micros(y, m, d)) == d % 1_000_000,
    ensures
        cd_year(julian_day_micros(y, m, d)) == y,
        cd_month(julian_day_micros(y, m, d)) == m,
        cd_day_micros(julian_day_micros(y, m, d)) == d,
{
    let jd: int = julian_day_micros(y, m, d);
    let sy: int = shifted_year(y, m);
    let sm: int = shifted_month(m);
    let dw: int = d / 1_000_000;
    lemma_split_day(y, m, d);
    lemma_month_term_values();

    let yy: int = sy + 4716;
    let q4: int = yy / 4;
    let r4: int = yy % 4;
    lemma_fundamental_div_mod(yy, 4);
    lemma_mod_division_less_than_divisor(yy, 4);
    assert(year_term(sy) == 365 * yy + q4) by {
        lemma_hoist_over_denominator(yy, 365 * yy, 4nat);
    }

    // the year counter of the decomposition recovers the shifted year
    if m == 2 && dw == 29 {
        assert(leap_year(y));
        assert(y % 4 == 0);
        lemma_fundamental_div_mod(y, 4);
        assert(yy == 4 * (y / 4 + 1178) + 3);
        lemma_fundamental_div_mod_converse_mod(yy, 4, y / 4 + 1178, 3);
        assert(r4 == 3);
    } else {
        assert(month_term(sm) + dw <= 487);
    }
    let rr: int = 20 * (month_term(sm) + dw) - 5 * r4 - 2442;
    assert(0 <= rr < 7305);
    assert(20 * cd_b(jd) - 2442 == 7305 * yy + rr);
    lemma_fundamental_div_mod_converse_div(20 * cd_b(jd) - 2442, 7305, yy, rr);

    assert(cd_b(jd) - (1461 * yy / 4) == month_term(sm) + dw);

    // the month counter of the decomposition recovers the shifted month
    let rho: int = 306001 * (sm + 1) % 10000;
    lemma_fundamental_div_mod(306001 * (sm + 1), 10000);
    lemma_mod_division_less_than_divisor(306001 * (sm + 1), 10000);
    assert(306001 * (sm + 1) == 10000 * month_term(sm) + rho);
    let rho2: int = 10000 * dw - rho;
    if dw == 31 {
        assert(days_in_month(y, m) == 31);
        assert(rho > 3999) by {
            assert(306001 * (3 + 1) % 10000 == 4004);
            assert(306001 * (5 + 1) % 10000 == 6006);
            assert(306001 * (7 + 1) % 10000 == 8008);
            assert(306001 * (8 + 1) % 10000 == 4009);
            assert(306001 * (10 + 1) % 10000 == 6011);
            assert(306001 * (12 + 1) % 10000 == 8013);
            assert(306001 * (13 + 1) % 10000 == 4014);
        }
    }
    assert(0 <= rho2 < 306001);
    assert((month_term(sm) + dw) * 10000 == 306001 * (sm + 1) + rho2);
    lemma_fundamental_div_mod_converse_div(
        (month_term(sm) + dw) * 10000,
        306001,
        sm + 1,
        rho2,
    );

    assert(306001 * (sm + 1) / 10000 == month_term(sm));
    assert(cd_day_micros(jd) == dw * 1_000_000 + d % 1_000_000);
    assert(cd_month(jd) == m);
    assert(cd_year(jd) == y);
}

/// For a date under the Julian rule, the shifted-plus-half day count stays
/// below the reform threshold, so the decomposition takes the Julian
/// branch and its rebased count `b` is year term plus month term plus
/// whole day.
proof fn lemma_julian_b(y: int, m: int, d: int)
    requires
        valid_date(y, m, d),
        !is_gregorian(y, m, d),
    ensures
        cd_z(julian_day_micros(y, m, d)) < 2_299_161,
        cd_b(julian_day_micros(y, m, d)) == year_term(shifted_year(y, m)) + month_term(
            shifted_month(m),
        ) + d / 1_000_000,
        cd_f(julian_day_micros(y, m, d)) == d % 1_000_000,
{
    let jd: int = julian_day_micros(y, m, d);
    let sy: int = shifted_year(y, m);
    let sm: int = shifted_month(m);
    let dw: int = d / 1_000_000;
    let fr: int = d % 1_000_000;
    lemma_split_day(y, m, d);

    let whole: int = year_term(sy) + month_term(sm) - 1524 + dw;
    assert(jd + 500_000 == 1_000_000 * whole + fr);
    assert(cd_z(jd) == whole) by {
        lemma_div_multiples_vanish_fancy(whole, fr, 1_000_000);
    }
    assert(cd_f(jd) == fr) by {
        lemma_mod_multiples_vanish(whole, fr, 1_000_000);
        lemma_small_mod(fr as nat, 1_000_000nat);
    }

    if y == 1582 && m == 10 {
        assert(d < 4_000_000);
        assert(dw <= 3) by {
            lemma_div_is_ordered(d, 3_999_999, 1_000_000);
        }
        assert(year_term(1582) == 2_300_344);
        lemma_month_term_values();
        assert(cd_z(jd) <= 2_299_159);
    } else {
        assert(12 * y + m < 12 * 1582 + 10);
        assert(!in_reform_gap(y, m, d));
        lemma_day_in_month(y, m, d);
        lemma_first_of_ordered(y, m, 1582, 10);
        assert(first_of(succ_year(y, m), succ_month(m)) <= first_of(1582, 10));
        assert(first_of(1582, 10) == 2_299_156_500_000) by {
            assert(year_term(1582) == 2_300_344);
            lemma_month_term_values();
        }
        assert(jd + 500_000 <= 2_299_156_999_999);
        assert(cd_z(jd) <= 2_299_156) by {
            lemma_div_is_ordered(jd + 500_000, 2_299_156_999_999, 1_000_000);
        }
    }
    assert(cd_a(jd) == cd_z(jd));
}

/// For a date under the Gregorian rule (past the removed and aliased days
/// of October 1582), the shifted-plus-half day count reaches the reform
/// threshold, and the century corrections of the decomposition exactly
/// undo the correction term of the conversion.
proof fn lemma_gregorian_b(y: int, m: int, d: int)
    requires
        valid_date(y, m, d),
        is_gregorian(y, m, d),
        !(y == 1582 && m == 10 && d < 15_000_000),
    ensures
        cd_b(julian_day_micros(y, m, d)) == year_term(shifted_year(y, m)) + month_term(
            shifted_month(m),
        ) + d / 1_000_000,
        cd_f(julian_day_micros(y, m, d)) == d % 1_000_000,
{
    let jd: int = julian_day_micros(y, m, d);
    let sy: int = shifted_year(y, m);
    let sm: int = shifted_month(m);
    let dw: int = d / 1_000_000;
    let fr: int = d % 1_000_000;
    lemma_split_day(y, m, d);
    lemma_month_term_values();

    let whole: int = year_term(sy) + month_term(sm) + gregorian_b(sy) - 1524 + dw;
    assert(jd + 500_000 == 1_000_000 * whole + fr);
    assert(cd_z(jd) == whole) by {
        lemma_div_multiples_vanish_fancy(whole, fr, 1_000_000);
    }
    assert(cd_f(jd) == fr) by {
        lemma_mod_multiples_vanish(whole, fr, 1_000_000);
        lemma_small_mod(fr as nat, 1_000_000nat);
    }

    // the day count reaches the reform threshold
    if y == 1582 && m == 10 {
        assert(d >= 15_000_000);
        assert(dw >= 15) by {
            lemma_div_is_ordered(15_000_000, d, 1_000_000);
        }
        assert(year_term(1582) == 2_300_344);
        assert(gregorian_b(1582) == -10);
        assert(cd_z(jd) >= 2_299_161);
    } else {
        assert(12 * 1582 + 10 < 12 * y + m);
        assert(!in_reform_gap(y, m, d));
        lemma_day_in_month(y, m, d);
        lemma_first_of_ordered(1582, 10, y, m);
        assert(first_of(1582, 11) <= first_of(y, m));
        assert(first_of(1582, 11) == 2_299_177_500_000) by {
            assert(year_term(1582) == 2_300_344);
            assert(gregorian_b(1582) == -10);
        }
        assert(jd + 500_000 >= 2_299_178_000_000);
        assert(cd_z(jd) >= 2_299_178) by {
            lemma_div_is_ordered(2_299_178_000_000, jd + 500_000, 1_000_000);
        }
    }

    // the century corrections undo the correction term
    let cent: int = sy / 100;
    let cc: int = sy % 100;
    lemma_fundamental_div_mod(sy, 100);
    lemma_mod_division_less_than_divisor(sy, 100);
    assert(sy >= 1582);
    assert(cent >= 15) by {
        lemma_div_is_ordered(1582, sy, 100);
    }
    let rc: int = cent % 4;
    lemma_fundamental_div_mod(cent, 4);
    lemma_mod_division_less_than_divisor(cent, 4);

    let yy: int = sy + 4716;
    let q4: int = yy / 4;
    let r4: int = yy % 4;
    lemma_fundamental_div_mod(yy, 4);
    lemma_mod_division_less_than_divisor(yy, 4);
    assert(year_term(sy) == 365 * yy + q4) by {
        lemma_hoist_over_denominator(yy, 365 * yy, 4nat);
    }
    assert(r4 == cc % 4) by {
        assert(yy == 4 * (25 * cent + 1179) + cc);
        lemma_mod_multiples_vanish(25 * cent + 1179, cc, 4);
    }
    lemma_mod_division_less_than_divisor(cc, 4);

    // 100 z - 186721625 lands in the (cent - 4)th window of 3652425
    let remainder: int = 36525 * cc + 100 * (month_term(sm) + dw) - 25 * (r4 + rc) - 12_225;
    assert(100 * cd_z(jd) - 186_721_625 == 3_652_425 * (cent - 4) + remainder);
    if cc == 0 {
        assert(r4 == 0);
        assert(remainder >= 0);
    }
    assert(remainder >= 0);
    if cc == 99 && month_term(sm) + dw == 488 {
        assert(sm == 14 && dw == 29);
        assert(m == 2 && days_in_month(y, 2) >= 29);
        assert(leap_year(y));
        assert(y == 100 * (cent + 1));
        assert(y % 100 == 0) by {
            assert(y == (cent + 1) * 100);
            lemma_mod_multiples_basic(cent + 1, 100);
        }
        assert(y % 400 == 0);
        lemma_fundamental_div_mod(y, 400);
        let k: int = y / 400;
        assert(100 * (cent + 1) == 400 * k);
        assert(cent == 4 * (k - 1) + 3);
        lemma_fundamental_div_mod_converse_mod(cent, 4, k - 1, 3);
        assert(rc == 3);
        assert(r4 == 3);
        assert(remainder < 3_652_425);
    } else {
        assert(month_term(sm) + dw <= 487 || cc <= 98);
        assert(remainder < 3_652_425);
    }
    lemma_fundamental_div_mod_converse_div(
        100 * cd_z(jd) - 186_721_625,
        3_652_425,
        cent - 4,
        remainder,
    );

    assert((cent - 4) / 4 == cent / 4 - 1) by {
        lemma_hoist_over_denominator(cent, -1, 4nat);
    }
    assert(cd_a(jd) == cd_z(jd) - gregorian_b(sy));
}

/// The calendar round trip: for every valid date outside October 1582's
/// removed and aliased days (4.0 up to 15.0), decomposing the date's
/// Julian Day gives back the year, the month, and the fractional day
/// exactly.
pub proof fn lemma_calendar_round_trip(y: int, m: int, d: int)
    requires
        valid_date(y, m, d),
        !(y == 1582 && m == 10 && 4_000_000 <= d < 15_000_000),
    ensures
        cd_year(julian_day_micros(y, m, d)) == y,
        cd_month(julian_day_micros(y, m, d)) == m,
        cd_day_micros(julian_day_micros(y, m, d)) == d,
{
    if is_gregorian(y, m, d) {
        lemma_gregorian_b(y, m, d);
    } else {
        lemma_julian_b(y, m, d);
    }
    lemma_inversion_from_b(y, m, d);
}

} // verus!
