//! Small helpers for exact integer arithmetic on scaled (fixed-point) values.
//!
//! Every quantity in this crate is a decimal fixed-point number held in a
//! signed integer (most public values carry six decimal places, so one unit
//! is a millionth of a day, of a degree or of a second).  All divisions in
//! the astronomical formulas round toward negative infinity, so the helpers
//! here expose Euclidean (floor) division and remainder for positive
//! divisors, matching the `/` and `%` of specification integers.

use vstd::prelude::*;

verus! {

use vstd::arithmetic::div_mod::{
    lemma_div_is_ordered,
    lemma_div_nonincreasing,
    lemma_div_pos_is_pos,
    lemma_fundamental_div_mod,
    lemma_mod_division_less_than_divisor,
};

/// For a positive divisor the Euclidean quotient lies between the dividend
/// and zero, so it always fits in the dividend's machine type.
pub proof fn lemma_div_between(a: int, b: int)
    requires
        b >= 1,
    ensures
        a >= 0 ==> 0 <= a / b <= a,
        a < 0 ==> a <= a / b <= 0,
{
    if a >= 0 {
        lemma_div_pos_is_pos(a, b);
        lemma_div_nonincreasing(a, b);
    } else {
        lemma_div_is_ordered(a, 0, b);
        assert(0int / b == 0) by {
            lemma_fundamental_div_mod(0, b);
            assert(0 <= 0int % b < b);
        }
        lemma_fundamental_div_mod(a, b);
        let q: int = a / b;
        let r: int = a % b;
        assert(0 <= r < b);
        assert(b * q == a - r);
        assert(q >= a) by (nonlinear_arith)
            requires
                b * q == a - r,
                0 <= r < b,
                a < 0,
                b >= 1,
                q <= 0,
        ;
    }
}

/// Floor division of an `i64` by a positive divisor: the quotient of
/// Euclidean division, rounding toward negative infinity.
pub(crate) fn div_floor_i64(a: i64, b: i64) -> (q: i64)
    requires
        b > 0,
    ensures
        q == a as int / b as int,
{
    proof {
        lemma_div_between(a as int, b as int);
    }
    a.checked_div_euclid(b).unwrap()
}

/// Euclidean remainder of an `i64` by a positive divisor; the result lies
/// in `[0, b)`.
pub(crate) fn rem_euclid_i64(a: i64, b: i64) -> (r: i64)
    requires
        b > 0,
    ensures
        r == a as int % b as int,
        0 <= r < b,
{
    a.checked_rem_euclid(b).unwrap()
}

/// Floor division of an `i128` by a positive divisor.
pub(crate) fn div_floor_i128(a: i128, b: i128) -> (q: i128)
    requires
        b > 0,
    ensures
        q == a as int / b as int,
{
    proof {
        lemma_div_between(a as int, b as int);
    }
    a.checked_div_euclid(b).unwrap()
}

/// Euclidean remainder of an `i128` by a positive divisor.
pub(crate) fn rem_euclid_i128(a: i128, b: i128) -> (r: i128)
    requires
        b > 0,
    ensures
        r == a as int % b as int,
        0 <= r < b,
{
    a.checked_rem_euclid(b).unwrap()
}

/// Bounds of a quotient follow from bounds of the dividend, for a positive
/// divisor.
pub proof fn lemma_div_bounds(x: int, lo: int, hi: int, d: int)
    requires
        d > 0,
        lo <= x <= hi,
    ensures
        lo / d <= x / d <= hi / d,
{
    lemma_div_is_ordered(lo, x, d);
    lemma_div_is_ordered(x, hi, d);
}

/// One step of a fixed-point power ladder: multiplies two values with nine
/// decimal places and scales the product back down, rounding toward
/// negative infinity.  The ghost magnitude bounds rule out overflow and
/// bound the result for the next step.
pub(crate) fn scaled_pow_step(
    p: i128,
    v: i128,
    Ghost(pb): Ghost<int>,
    Ghost(vb): Ghost<int>,
) -> (r: i128)
    requires
        0 <= pb,
        0 <= vb,
        -pb <= p <= pb,
        -vb <= v <= vb,
        pb * vb <= i128::MAX,
    ensures
        r == p as int * v as int / 1_000_000_000,
        (-(pb * vb)) / 1_000_000_000 <= r <= pb * vb / 1_000_000_000,
{
    proof {
        assert(-(pb * vb) <= p as int * v as int <= pb * vb) by (nonlinear_arith)
            requires
                0 <= pb,
                0 <= vb,
                -pb <= p as int <= pb,
                -vb <= v as int <= vb,
        ;
        lemma_div_bounds(p as int * v as int, -(pb * vb), pb * vb, 1_000_000_000);
        lemma_div_between(-(pb * vb), 1_000_000_000);
        lemma_div_between(pb * vb, 1_000_000_000);
    }
    let prod: i128 = p * v;
    div_floor_i128(prod, 1_000_000_000)
}

/// A polynomial term: a power of the variable times a decimal coefficient
/// `c / d`.
pub open spec fn poly_term(p: int, c: int, d: int) -> int {
    p * c / d
}

/// Evaluates a polynomial term of the segment polynomials: a bounded power
/// of the variable times the decimal coefficient `c / d`, rounding toward
/// negative infinity.
pub(crate) fn term(p: i128, c: i128, d: i128, Ghost(pb): Ghost<int>) -> (r: i128)
    requires
        0 <= pb,
        -pb <= p <= pb,
        c > 0,
        d > 0,
        pb * c <= i128::MAX,
    ensures
        r == poly_term(p as int, c as int, d as int),
        (-(pb * c as int)) / d as int <= r <= pb * c as int / d as int,
{
    proof {
        assert(-(pb * c) <= p as int * c as int <= pb * c) by (nonlinear_arith)
            requires
                0 <= pb,
                -pb <= p as int <= pb,
                c > 0,
        ;
        lemma_div_bounds(p as int * c as int, -(pb * c as int), pb * c as int, d as int);
        lemma_div_between(-(pb * c as int), d as int);
        lemma_div_between(pb * c as int, d as int);
    }
    let prod: i128 = p * c;
    div_floor_i128(prod, d)
}

/// Rounds a seconds value with six decimal places to hundredths, halves
/// rounding up; total for every `i64` (the sum is widened before dividing).
pub(crate) fn round_to_centis(s: i64) -> (r: i64)
    ensures
        r == (s as int + 5000) / 10000,
{
    let wide: i128 = s as i128 + 5000;
    let q: i128 = div_floor_i128(wide, 10000);
    proof {
        lemma_div_is_ordered(i64::MIN as int, wide as int, 10000);
        lemma_div_is_ordered(wide as int, i64::MAX as int + 5000, 10000);
        assert((i64::MAX as int + 5000) / 10000 < i64::MAX);
        assert(i64::MIN as int / 10000 >= i64::MIN) by {
            lemma_div_between(i64::MIN as int, 10000);
        }
    }
    q as i64
}

} // verus!
