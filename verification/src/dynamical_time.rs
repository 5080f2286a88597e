//! The difference between dynamical time and universal time, in seconds.
//!
//! The estimate follows the piecewise polynomial model fitted to the Five
//! Millennium Canon of Solar Eclipses: the floor of a decimal year (the
//! middle of the requested month) selects one of the polynomial segments,
//! each written in a locally shifted, optionally rescaled variable.
//! Outside the covered years, and inside the 2100..=2149 gap of the model,
//! the estimate is refused rather than extrapolated.
//!
//! All arithmetic runs at nine decimal places in `i128`; the result is
//! returned at six decimal places.  Every division rounds toward negative
//! infinity.

use vstd::prelude::*;

verus! {

use crate::date::Date;
use vstd::arithmetic::div_mod::{lemma_fundamental_div_mod, lemma_mod_division_less_than_divisor};

use crate::num::{
    div_floor_i128,
    div_floor_i64,
    lemma_div_between,
    lemma_div_bounds,
    poly_term,
    scaled_pow_step,
    term,
};
use crate::AstroError;

/// Twenty-four times the decimal year of a date: the year plus the middle
/// of the month, `year + (month - 0.5) / 12`, kept exact by scaling by 24.
pub open spec fn decimal_year_24(year: int, month: int) -> int {
    24 * year + 2 * month - 1
}

/// The whole decimal year that selects a polynomial segment: the floor of
/// the decimal year.  The month fraction is always positive, so this is
/// the calendar year itself.
pub open spec fn dt_key(y24: int) -> int {
    y24 / 24
}

/// Whether the model covers a decimal year: -1999 through 2099, and 2150
/// through 2999 (the gap in between is not covered).
pub open spec fn dt_supported(key: int) -> bool {
    (-1999 <= key <= 2099) || (2150 <= key <= 2999)
}

/// One step of the power ladder: the product of two values with nine
/// decimal places, scaled back down.
pub open spec fn pow_step(p: int, v: int) -> int {
    p * v / 1_000_000_000
}

/// The segment variable `(y - base) / 100`, at nine decimal places.
pub open spec fn var_centuries(y24: int, base24: int) -> int {
    (y24 - base24) * 1_000_000_000 / 2400
}

/// The segment variable `y - base`, at nine decimal places.
pub open spec fn var_years(y24: int, base24: int) -> int {
    (y24 - base24) * 1_000_000_000 / 24
}

/// Outside the detailed record, before -500 and from 2150 on:
/// `-20 + 32 u^2` with `u = (y - 1820) / 100`.
pub open spec fn dt_poly_outer(y24: int) -> int {
    let u: int = var_centuries(y24, 43680);
    let u2: int = pow_step(u, u);
    -20_000_000_000 + 32 * u2
}

/// Years -500 through 499: a sixth-degree polynomial in `u = y / 100`.
pub open spec fn dt_poly_minus500(y24: int) -> int {
    let u: int = var_centuries(y24, 0);
    let u2: int = pow_step(u, u);
    let u3: int = pow_step(u2, u);
    let u4: int = pow_step(u3, u);
    let u5: int = pow_step(u4, u);
    let u6: int = pow_step(u5, u);
    10_583_600_000_000 - poly_term(u, 101441, 100) + poly_term(u2, 3378311, 100_000) - poly_term(
        u3,
        5952053,
        1_000_000,
    ) - poly_term(u4, 1798452, 10_000_000) + poly_term(u5, 22174192, 1_000_000_000) + poly_term(
        u6,
        90316521,
        10_000_000_000,
    )
}

/// Years 500 through 1599: a sixth-degree polynomial in
/// `u = (y - 1000) / 100`.
pub open spec fn dt_poly_500(y24: int) -> int {
    let u: int = var_centuries(y24, 24000);
    let u2: int = pow_step(u, u);
    let u3: int = pow_step(u2, u);
    let u4: int = pow_step(u3, u);
    let u5: int = pow_step(u4, u);
    let u6: int = pow_step(u5, u);
    1_574_200_000_000 - poly_term(u, 55601, 100) + poly_term(u2, 7123472, 100_000) + poly_term(
        u3,
        319781,
        1_000_000,
    ) - poly_term(u4, 8503463, 10_000_000) - poly_term(u5, 5050998, 1_000_000_000) + poly_term(
        u6,
        83572073,
        10_000_000_000,
    )
}

/// Years 1600 through 1699, in `t = y - 1600`.
pub open spec fn dt_poly_1600(y24: int) -> int {
    let t: int = var_years(y24, 38400);
    let t2: int = pow_step(t, t);
    let t3: int = pow_step(t2, t);
    120_000_000_000 - poly_term(t, 9808, 10_000) - poly_term(t2, 1532, 100_000) + poly_term(
        t3,
        1,
        7129,
    )
}

/// Years 1700 through 1799, in `t = y - 1700`.
pub open spec fn dt_poly_1700(y24: int) -> int {
    let t: int = var_years(y24, 40800);
    let t2: int = pow_step(t, t);
    let t3: int = pow_step(t2, t);
    let t4: int = pow_step(t3, t);
    8_830_000_000 + poly_term(t, 1603, 10_000) - poly_term(t2, 59285, 10_000_000) + poly_term(
        t3,
        13336,
        100_000_000,
    ) - poly_term(t4, 1, 1_174_000)
}

/// Years 1800 through 1859, in `t = y - 1800`.
pub open spec fn dt_poly_1800(y24: int) -> int {
    let t: int = var_years(y24, 43200);
    let t2: int = pow_step(t, t);
    let t3: int = pow_step(t2, t);
    let t4: int = pow_step(t3, t);
    let t5: int = pow_step(t4, t);
    let t6: int = pow_step(t5, t);
    let t7: int = pow_step(t6, t);
    13_720_000_000 - poly_term(t, 332447, 1_000_000) + poly_term(t2, 68612, 10_000_000)
        + poly_term(t3, 41116, 10_000_000) - poly_term(t4, 37436, 100_000_000) + poly_term(
        t5,
        121272,
        10_000_000_000,
    ) - poly_term(t6, 1699, 10_000_000_000) + poly_term(t7, 875, 1_000_000_000_000)
}

/// Years 1860 through 1899, in `t = y - 1860`.
pub open spec fn dt_poly_1860(y24: int) -> int {
    let t: int = var_years(y24, 44640);
    let t2: int = pow_step(t, t);
    let t3: int = pow_step(t2, t);
    let t4: int = pow_step(t3, t);
    let t5: int = pow_step(t4, t);
    7_620_000_000 + poly_term(t, 5737, 10_000) - poly_term(t2, 251754, 1_000_000) + poly_term(
        t3,
        1680668,
        100_000_000,
    ) - poly_term(t4, 4473624, 10_000_000_000) + poly_term(t5, 1, 233174)
}

/// Years 1900 through 1919, in `t = y - 1900`.
pub open spec fn dt_poly_1900(y24: int) -> int {
    let t: int = var_years(y24, 45600);
    let t2: int = pow_step(t, t);
    let t3: int = pow_step(t2, t);
    let t4: int = pow_step(t3, t);
    -2_790_000_000 + poly_term(t, 1494119, 1_000_000) - poly_term(t2, 598939, 10_000_000)
        + poly_term(t3, 61966, 10_000_000) - poly_term(t4, 197, 1_000_000)
}

/// Years 1920 through 1940, in `t = y - 1920`.
pub open spec fn dt_poly_1920(y24: int) -> int {
    let t: int = var_years(y24, 46080);
    let t2: int = pow_step(t, t);
    let t3: int = pow_step(t2, t);
    21_200_000_000 + poly_term(t, 84493, 100_000) - poly_term(t2, 761, 10_000) + poly_term(
        t3,
        20936,
        10_000_000,
    )
}

/// Years 1941 through 1960, in `t = y - 1950`.
pub open spec fn dt_poly_1941(y24: int) -> int {
    let t: int = var_years(y24, 46800);
    let t2: int = pow_step(t, t);
    let t3: int = pow_step(t2, t);
    29_070_000_000 + poly_term(t, 407, 1000) - poly_term(t2, 1, 233) + poly_term(t3, 1, 2547)
}

/// Years 1961 through 1985, in `t = y - 1975`.
pub open spec fn dt_poly_1961(y24: int) -> int {
    let t: int = var_years(y24, 47400);
    let t2: int = pow_step(t, t);
    let t3: int = pow_step(t2, t);
    45_450_000_000 + poly_term(t, 1067, 1000) - poly_term(t2, 1, 260) - poly_term(t3, 1, 718)
}

/// Years 1986 through 2004, in `t = y - 2000`.
pub open spec fn dt_poly_1986(y24: int) -> int {
    let t: int = var_years(y24, 48000);
    let t2: int = pow_step(t, t);
    let t3: int = pow_step(t2, t);
    let t4: int = pow_step(t3, t);
    let t5: int = pow_step(t4, t);
    63_860_000_000 + poly_term(t, 3345, 10_000) - poly_term(t2, 60374, 1_000_000) + poly_term(
        t3,
        17275,
        10_000_000,
    ) + poly_term(t4, 651814, 1_000_000_000) + poly_term(t5, 2373599, 100_000_000_000)
}

/// Years 2005 through 2049, in `t = y - 2000`.
pub open spec fn dt_poly_2005(y24: int) -> int {
    let t: int = var_years(y24, 48000);
    let t2: int = pow_step(t, t);
    62_920_000_000 + poly_term(t, 32217, 100_000) + poly_term(t2, 5589, 1_000_000)
}

/// Years 2050 through 2099: the outer parabola with a correction that
/// fades toward 2150, `-20 + 32 t^2 - 0.5628 (2150 - y)`.
pub open spec fn dt_poly_2050(y24: int) -> int {
    let t: int = var_centuries(y24, 43680);
    let t2: int = pow_step(t, t);
    let toward_gap: int = 2_150_000_000_000 - var_years(y24, 0);
    -20_000_000_000 + 32 * t2 - poly_term(toward_gap, 5628, 10_000)
}

/// The estimate at nine decimal places, dispatched on the whole decimal
/// year.
pub open spec fn delta_t_nanos(y24: int) -> int {
    let key: int = dt_key(y24);
    if key <= -501 {
        dt_poly_outer(y24)
    } else if key <= 499 {
        dt_poly_minus500(y24)
    } else if key <= 1599 {
        dt_poly_500(y24)
    } else if key <= 1699 {
        dt_poly_1600(y24)
    } else if key <= 1799 {
        dt_poly_1700(y24)
    } else if key <= 1859 {
        dt_poly_1800(y24)
    } else if key <= 1899 {
        dt_poly_1860(y24)
    } else if key <= 1919 {
        dt_poly_1900(y24)
    } else if key <= 1940 {
        dt_poly_1920(y24)
    } else if key <= 1960 {
        dt_poly_1941(y24)
    } else if key <= 1985 {
        dt_poly_1961(y24)
    } else if key <= 2004 {
        dt_poly_1986(y24)
    } else if key <= 2049 {
        dt_poly_2005(y24)
    } else if key <= 2099 {
        dt_poly_2050(y24)
    } else {
        dt_poly_outer(y24)
    }
}

/// The estimate in seconds with six decimal places.
pub open spec fn delta_t_micros(year: int, month: int) -> int {
    delta_t_nanos(decimal_year_24(year, month)) / 1000
}

/// Estimates the difference between dynamical and universal time, in
/// seconds with six decimal places, for the middle of the date's month; or
/// refuses a decimal year the model does not cover.
pub fn delta_t(date: &Date) -> (r: Result<i64, AstroError>)
    requires
        1 <= date.month <= 12,
    ensures
        r is Ok <==> dt_supported(
            dt_key(decimal_year_24(date.year as int, date.month as int)),
        ),
        r is Ok ==> r->Ok_0 == delta_t_micros(date.year as int, date.month as int),
        r is Err ==> r->Err_0 == AstroError::UnsupportedYearRange,
{
    let y24: i64 = 24 * date.year as i64 + 2 * date.month as i64 - 1;
    let key: i64 = div_floor_i64(y24, 24);
    proof {
        lemma_fundamental_div_mod(y24 as int, 24);
        lemma_mod_division_less_than_divisor(y24 as int, 24);
    }

    if key < -1999 || (key > 2099 && key < 2150) || key > 2999 {
        return Err(AstroError::UnsupportedYearRange);
    }

    let nanos: i128 = if key <= -501 {
        poly_outer(y24)
    } else if key <= 499 {
        poly_minus500(y24)
    } else if key <= 1599 {
        poly_500(y24)
    } else if key <= 1699 {
        poly_1600(y24)
    } else if key <= 1799 {
        poly_1700(y24)
    } else if key <= 1859 {
        poly_1800(y24)
    } else if key <= 1899 {
        poly_1860(y24)
    } else if key <= 1919 {
        poly_1900(y24)
    } else if key <= 1940 {
        poly_1920(y24)
    } else if key <= 1960 {
        poly_1941(y24)
    } else if key <= 1985 {
        poly_1961(y24)
    } else if key <= 2004 {
        poly_1986(y24)
    } else if key <= 2049 {
        poly_2005(y24)
    } else if key <= 2099 {
        poly_2050(y24)
    } else {
        poly_outer(y24)
    };

    proof {
        lemma_div_between(nanos as int, 1000);
    }
    let micros: i128 = div_floor_i128(nanos, 1000);
    Ok(micros as i64)
}

/// The outer parabola, used before year -500 and from 2150 on.
fn poly_outer(y24: i64) -> (r: i128)
    requires
        -48_000 <= y24 <= 72_000,
    ensures
        r == dt_poly_outer(y24 as int),
        -100_000_000_000_000 <= r <= 100_000_000_000_000,
{
    let num: i128 = (y24 as i128 - 43680) * 1_000_000_000;
    proof {
        lemma_div_bounds(num as int, -91_680_000_000_000, 28_320_000_000_000, 2400);
    }
    let u: i128 = div_floor_i128(num, 2400);
    let u2: i128 = scaled_pow_step(u, u, Ghost(39_000_000_000int), Ghost(39_000_000_000int));
    -20_000_000_000 + 32 * u2
}

/// The segment for years -500 through 499.
fn poly_minus500(y24: i64) -> (r: i128)
    requires
        -12_023 <= y24 <= 11_999,
    ensures
        r == dt_poly_minus500(y24 as int),
        -100_000_000_000_000 <= r <= 100_000_000_000_000,
{
    let num: i128 = y24 as i128 * 1_000_000_000;
    proof {
        lemma_div_bounds(num as int, -12_023_000_000_000, 11_999_000_000_000, 2400);
    }
    let u: i128 = div_floor_i128(num, 2400);
    let u2: i128 = scaled_pow_step(u, u, Ghost(6_000_000_000int), Ghost(6_000_000_000int));
    let u3: i128 = scaled_pow_step(u2, u, Ghost(36_000_000_000int), Ghost(6_000_000_000int));
    let u4: i128 = scaled_pow_step(u3, u, Ghost(216_000_000_000int), Ghost(6_000_000_000int));
    let u5: i128 = scaled_pow_step(u4, u, Ghost(1_296_000_000_000int), Ghost(6_000_000_000int));
    let u6: i128 = scaled_pow_step(u5, u, Ghost(7_776_000_000_000int), Ghost(6_000_000_000int));
    10_583_600_000_000 - term(u, 101441, 100, Ghost(6_000_000_000int)) + term(
        u2,
        3378311,
        100_000,
        Ghost(36_000_000_000int),
    ) - term(u3, 5952053, 1_000_000, Ghost(216_000_000_000int)) - term(
        u4,
        1798452,
        10_000_000,
        Ghost(1_296_000_000_000int),
    ) + term(u5, 22174192, 1_000_000_000, Ghost(7_776_000_000_000int)) + term(
        u6,
        90316521,
        10_000_000_000,
        Ghost(46_656_000_000_000int),
    )
}

/// The segment for years 500 through 1599.
fn poly_500(y24: i64) -> (r: i128)
    requires
        11_977 <= y24 <= 38_399,
    ensures
        r == dt_poly_500(y24 as int),
        -100_000_000_000_000 <= r <= 100_000_000_000_000,
{
    let num: i128 = (y24 as i128 - 24000) * 1_000_000_000;
    proof {
        lemma_div_bounds(num as int, -12_023_000_000_000, 14_399_000_000_000, 2400);
    }
    let u: i128 = div_floor_i128(num, 2400);
    let u2: i128 = scaled_pow_step(u, u, Ghost(6_000_000_000int), Ghost(6_000_000_000int));
    let u3: i128 = scaled_pow_step(u2, u, Ghost(36_000_000_000int), Ghost(6_000_000_000int));
    let u4: i128 = scaled_pow_step(u3, u, Ghost(216_000_000_000int), Ghost(6_000_000_000int));
    let u5: i128 = scaled_pow_step(u4, u, Ghost(1_296_000_000_000int), Ghost(6_000_000_000int));
    let u6: i128 = scaled_pow_step(u5, u, Ghost(7_776_000_000_000int), Ghost(6_000_000_000int));
    1_574_200_000_000 - term(u, 55601, 100, Ghost(6_000_000_000int)) + term(
        u2,
        7123472,
        100_000,
        Ghost(36_000_000_000int),
    ) + term(u3, 319781, 1_000_000, Ghost(216_000_000_000int)) - term(
        u4,
        8503463,
        10_000_000,
        Ghost(1_296_000_000_000int),
    ) - term(u5, 5050998, 1_000_000_000, Ghost(7_776_000_000_000int)) + term(
        u6,
        83572073,
        10_000_000_000,
        Ghost(46_656_000_000_000int),
    )
}

/// The segment for years 1600 through 1699.
fn poly_1600(y24: i64) -> (r: i128)
    requires
        38_377 <= y24 <= 40_823,
    ensures
        r == dt_poly_1600(y24 as int),
        -100_000_000_000_000 <= r <= 100_000_000_000_000,
{
    let num: i128 = (y24 as i128 - 38400) * 1_000_000_000;
    proof {
        lemma_div_bounds(num as int, -23_000_000_000, 2_423_000_000_000, 24);
    }
    let t: i128 = div_floor_i128(num, 24);
    let t2: i128 = scaled_pow_step(t, t, Ghost(101_000_000_000int), Ghost(101_000_000_000int));
    let t3: i128 = scaled_pow_step(t2, t, Ghost(10_201_000_000_000int), Ghost(101_000_000_000int));
    120_000_000_000 - term(t, 9808, 10_000, Ghost(101_000_000_000int)) - term(
        t2,
        1532,
        100_000,
        Ghost(10_201_000_000_000int),
    ) + term(t3, 1, 7129, Ghost(1_030_301_000_000_000int))
}

/// The segment for years 1700 through 1799.
fn poly_1700(y24: i64) -> (r: i128)
    requires
        40_777 <= y24 <= 43_223,
    ensures
        r == dt_poly_1700(y24 as int),
        -100_000_000_000_000 <= r <= 100_000_000_000_000,
{
    let num: i128 = (y24 as i128 - 40800) * 1_000_000_000;
    proof {
        lemma_div_bounds(num as int, -23_000_000_000, 2_423_000_000_000, 24);
    }
    let t: i128 = div_floor_i128(num, 24);
    let t2: i128 = scaled_pow_step(t, t, Ghost(101_000_000_000int), Ghost(101_000_000_000int));
    let t3: i128 = scaled_pow_step(t2, t, Ghost(10_201_000_000_000int), Ghost(101_000_000_000int));
    let t4: i128 = scaled_pow_step(
        t3,
        t,
        Ghost(1_030_301_000_000_000int),
        Ghost(101_000_000_000int),
    );
    8_830_000_000 + term(t, 1603, 10_000, Ghost(101_000_000_000int)) - term(
        t2,
        59285,
        10_000_000,
        Ghost(10_201_000_000_000int),
    ) + term(t3, 13336, 100_000_000, Ghost(1_030_301_000_000_000int)) - term(
        t4,
        1,
        1_174_000,
        Ghost(104_060_401_000_000_000int),
    )
}

/// The segment for years 1800 through 1859.
fn poly_1800(y24: i64) -> (r: i128)
    requires
        43_177 <= y24 <= 44_663,
    ensures
        r == dt_poly_1800(y24 as int),
        -100_000_000_000_000 <= r <= 100_000_000_000_000,
{
    let num: i128 = (y24 as i128 - 43200) * 1_000_000_000;
    proof {
        lemma_div_bounds(num as int, -23_000_000_000, 1_463_000_000_000, 24);
    }
    let t: i128 = div_floor_i128(num, 24);
    let t2: i128 = scaled_pow_step(t, t, Ghost(61_000_000_000int), Ghost(61_000_000_000int));
    let t3: i128 = scaled_pow_step(t2, t, Ghost(3_721_000_000_000int), Ghost(61_000_000_000int));
    let t4: i128 = scaled_pow_step(t3, t, Ghost(226_981_000_000_000int), Ghost(61_000_000_000int));
    let t5: i128 = scaled_pow_step(
        t4,
        t,
        Ghost(13_845_841_000_000_000int),
        Ghost(61_000_000_000int),
    );
    let t6: i128 = scaled_pow_step(
        t5,
        t,
        Ghost(844_596_301_000_000_000int),
        Ghost(61_000_000_000int),
    );
    let t7: i128 = scaled_pow_step(
        t6,
        t,
        Ghost(51_520_374_361_000_000_000int),
        Ghost(61_000_000_000int),
    );
    13_720_000_000 - term(t, 332447, 1_000_000, Ghost(61_000_000_000int)) + term(
        t2,
        68612,
        10_000_000,
        Ghost(3_721_000_000_000int),
    ) + term(t3, 41116, 10_000_000, Ghost(226_981_000_000_000int)) - term(
        t4,
        37436,
        100_000_000,
        Ghost(13_845_841_000_000_000int),
    ) + term(t5, 121272, 10_000_000_000, Ghost(844_596_301_000_000_000int)) - term(
        t6,
        1699,
        10_000_000_000,
        Ghost(51_520_374_361_000_000_000int),
    ) + term(t7, 875, 1_000_000_000_000, Ghost(3_142_742_836_021_000_000_000int))
}

/// The segment for years 1860 through 1899.
fn poly_1860(y24: i64) -> (r: i128)
    requires
        44_617 <= y24 <= 45_623,
    ensures
        r == dt_poly_1860(y24 as int),
        -100_000_000_000_000 <= r <= 100_000_000_000_000,
{
    let num: i128 = (y24 as i128 - 44640) * 1_000_000_000;
    proof {
        lemma_div_bounds(num as int, -23_000_000_000, 983_000_000_000, 24);
    }
    let t: i128 = div_floor_i128(num, 24);
    let t2: i128 = scaled_pow_step(t, t, Ghost(41_000_000_000int), Ghost(41_000_000_000int));
    let t3: i128 = scaled_pow_step(t2, t, Ghost(1_681_000_000_000int), Ghost(41_000_000_000int));
    let t4: i128 = scaled_pow_step(t3, t, Ghost(68_921_000_000_000int), Ghost(41_000_000_000int));
    let t5: i128 = scaled_pow_step(
        t4,
        t,
        Ghost(2_825_761_000_000_000int),
        Ghost(41_000_000_000int),
    );
    7_620_000_000 + term(t, 5737, 10_000, Ghost(41_000_000_000int)) - term(
        t2,
        251754,
        1_000_000,
        Ghost(1_681_000_000_000int),
    ) + term(t3, 1680668, 100_000_000, Ghost(68_921_000_000_000int)) - term(
        t4,
        4473624,
        10_000_000_000,
        Ghost(2_825_761_000_000_000int),
    ) + term(t5, 1, 233174, Ghost(115_856_201_000_000_000int))
}

/// The segment for years 1900 through 1919.
fn poly_1900(y24: i64) -> (r: i128)
    requires
        45_577 <= y24 <= 46_103,
    ensures
        r == dt_poly_1900(y24 as int),
        -100_000_000_000_000 <= r <= 100_000_000_000_000,
{
    let num: i128 = (y24 as i128 - 45600) * 1_000_000_000;
    proof {
        lemma_div_bounds(num as int, -23_000_000_000, 503_000_000_000, 24);
    }
    let t: i128 = div_floor_i128(num, 24);
    let t2: i128 = scaled_pow_step(t, t, Ghost(21_000_000_000int), Ghost(21_000_000_000int));
    let t3: i128 = scaled_pow_step(t2, t, Ghost(441_000_000_000int), Ghost(21_000_000_000int));
    let t4: i128 = scaled_pow_step(t3, t, Ghost(9_261_000_000_000int), Ghost(21_000_000_000int));
    -2_790_000_000 + term(t, 1494119, 1_000_000, Ghost(21_000_000_000int)) - term(
        t2,
        598939,
        10_000_000,
        Ghost(441_000_000_000int),
    ) + term(t3, 61966, 10_000_000, Ghost(9_261_000_000_000int)) - term(
        t4,
        197,
        1_000_000,
        Ghost(194_481_000_000_000int),
    )
}

/// The segment for years 1920 through 1940.
fn poly_1920(y24: i64) -> (r: i128)
    requires
        46_057 <= y24 <= 46_607,
    ensures
        r == dt_poly_1920(y24 as int),
        -100_000_000_000_000 <= r <= 100_000_000_000_000,
{
    let num: i128 = (y24 as i128 - 46080) * 1_000_000_000;
    proof {
        lemma_div_bounds(num as int, -23_000_000_000, 527_000_000_000, 24);
    }
    let t: i128 = div_floor_i128(num, 24);
    let t2: i128 = scaled_pow_step(t, t, Ghost(22_000_000_000int), Ghost(22_000_000_000int));
    let t3: i128 = scaled_pow_step(t2, t, Ghost(484_000_000_000int), Ghost(22_000_000_000int));
    21_200_000_000 + term(t, 84493, 100_000, Ghost(22_000_000_000int)) - term(
        t2,
        761,
        10_000,
        Ghost(484_000_000_000int),
    ) + term(t3, 20936, 10_000_000, Ghost(10_648_000_000_000int))
}

/// The segment for years 1941 through 1960.
fn poly_1941(y24: i64) -> (r: i128)
    requires
        46_561 <= y24 <= 47_063,
    ensures
        r == dt_poly_1941(y24 as int),
        -100_000_000_000_000 <= r <= 100_000_000_000_000,
{
    let num: i128 = (y24 as i128 - 46800) * 1_000_000_000;
    proof {
        lemma_div_bounds(num as int, -239_000_000_000, 263_000_000_000, 24);
    }
    let t: i128 = div_floor_i128(num, 24);
    let t2: i128 = scaled_pow_step(t, t, Ghost(11_000_000_000int), Ghost(11_000_000_000int));
    let t3: i128 = scaled_pow_step(t2, t, Ghost(121_000_000_000int), Ghost(11_000_000_000int));
    29_070_000_000 + term(t, 407, 1000, Ghost(11_000_000_000int)) - term(
        t2,
        1,
        233,
        Ghost(121_000_000_000int),
    ) + term(t3, 1, 2547, Ghost(1_331_000_000_000int))
}

/// The segment for years 1961 through 1985.
fn poly_1961(y24: i64) -> (r: i128)
    requires
        47_041 <= y24 <= 47_663,
    ensures
        r == dt_poly_1961(y24 as int),
        -100_000_000_000_000 <= r <= 100_000_000_000_000,
{
    let num: i128 = (y24 as i128 - 47400) * 1_000_000_000;
    proof {
        lemma_div_bounds(num as int, -359_000_000_000, 263_000_000_000, 24);
    }
    let t: i128 = div_floor_i128(num, 24);
    let t2: i128 = scaled_pow_step(t, t, Ghost(15_000_000_000int), Ghost(15_000_000_000int));
    let t3: i128 = scaled_pow_step(t2, t, Ghost(225_000_000_000int), Ghost(15_000_000_000int));
    45_450_000_000 + term(t, 1067, 1000, Ghost(15_000_000_000int)) - term(
        t2,
        1,
        260,
        Ghost(225_000_000_000int),
    ) - term(t3, 1, 718, Ghost(3_375_000_000_000int))
}

/// The segment for years 1986 through 2004.
fn poly_1986(y24: i64) -> (r: i128)
    requires
        47_641 <= y24 <= 48_119,
    ensures
        r == dt_poly_1986(y24 as int),
        -100_000_000_000_000 <= r <= 100_000_000_000_000,
{
    let num: i128 = (y24 as i128 - 48000) * 1_000_000_000;
    proof {
        lemma_div_bounds(num as int, -359_000_000_000, 119_000_000_000, 24);
    }
    let t: i128 = div_floor_i128(num, 24);
    let t2: i128 = scaled_pow_step(t, t, Ghost(15_000_000_000int), Ghost(15_000_000_000int));
    let t3: i128 = scaled_pow_step(t2, t, Ghost(225_000_000_000int), Ghost(15_000_000_000int));
    let t4: i128 = scaled_pow_step(t3, t, Ghost(3_375_000_000_000int), Ghost(15_000_000_000int));
    let t5: i128 = scaled_pow_step(t4, t, Ghost(50_625_000_000_000int), Ghost(15_000_000_000int));
    63_860_000_000 + term(t, 3345, 10_000, Ghost(15_000_000_000int)) - term(
        t2,
        60374,
        1_000_000,
        Ghost(225_000_000_000int),
    ) + term(t3, 17275, 10_000_000, Ghost(3_375_000_000_000int)) + term(
        t4,
        651814,
        1_000_000_000,
        Ghost(50_625_000_000_000int),
    ) + term(t5, 2373599, 100_000_000_000, Ghost(759_375_000_000_000int))
}

/// The segment for years 2005 through 2049.
fn poly_2005(y24: i64) -> (r: i128)
    requires
        48_097 <= y24 <= 49_199,
    ensures
        r == dt_poly_2005(y24 as int),
        -100_000_000_000_000 <= r <= 100_000_000_000_000,
{
    let num: i128 = (y24 as i128 - 48000) * 1_000_000_000;
    proof {
        lemma_div_bounds(num as int, 97_000_000_000, 1_199_000_000_000, 24);
    }
    let t: i128 = div_floor_i128(num, 24);
    let t2: i128 = scaled_pow_step(t, t, Ghost(50_000_000_000int), Ghost(50_000_000_000int));
    62_920_000_000 + term(t, 32217, 100_000, Ghost(50_000_000_000int)) + term(
        t2,
        5589,
        1_000_000,
        Ghost(2_500_000_000_000int),
    )
}

/// The segment for years 2050 through 2099.
fn poly_2050(y24: i64) -> (r: i128)
    requires
        49_177 <= y24 <= 50_399,
    ensures
        r == dt_poly_2050(y24 as int),
        -100_000_000_000_000 <= r <= 100_000_000_000_000,
{
    let num: i128 = (y24 as i128 - 43680) * 1_000_000_000;
    proof {
        lemma_div_bounds(num as int, 5_497_000_000_000, 6_719_000_000_000, 2400);
    }
    let t: i128 = div_floor_i128(num, 2400);
    let t2: i128 = scaled_pow_step(t, t, Ghost(3_000_000_000int), Ghost(3_000_000_000int));
    let dy_num: i128 = y24 as i128 * 1_000_000_000;
    proof {
        lemma_div_bounds(dy_num as int, 49_177_000_000_000, 50_399_000_000_000, 24);
    }
    let dy: i128 = div_floor_i128(dy_num, 24);
    let toward_gap: i128 = 2_150_000_000_000 - dy;
    -20_000_000_000 + 32 * t2 - term(toward_gap, 5628, 10_000, Ghost(101_000_000_000int))
}

} // verus!
