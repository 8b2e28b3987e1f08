//! Fixed-point arithmetic helpers.
//!
//! Sample lanes are `i32` values in millionths of full scale; control
//! parameters are `i64` millionths. All scaling goes through truncating
//! division (rounding toward zero), and results that leave the lane range
//! are clamped to it.

use vstd::prelude::*;

verus! {

/// Truncating division (rounds toward zero), defined for positive divisors.
pub open spec fn div_trunc(a: int, b: int) -> int
    recommends
        b > 0,
{
    if a >= 0 {
        a / b
    } else {
        -((-a) / b)
    }
}

/// Clamp a mathematical integer into the `i32` lane range.
pub open spec fn clamp32(x: int) -> int {
    if x > i32::MAX as int {
        i32::MAX as int
    } else if x < i32::MIN as int {
        i32::MIN as int
    } else {
        x
    }
}

/// Clamp a mathematical integer into `[lo, hi]`.
pub open spec fn clamp_between(x: int, lo: int, hi: int) -> int
    recommends
        lo <= hi,
{
    if x > hi {
        hi
    } else if x < lo {
        lo
    } else {
        x
    }
}

/// A lane scaled by a gain in millionths, clamped back into lane range.
pub open spec fn scale_lane(v: int, g: int) -> int {
    clamp32(div_trunc(v * g, 1_000_000))
}

pub fn clamp_to_i32(x: i64) -> (r: i32)
    ensures
        r as int == clamp32(x as int),
{
    if x > i32::MAX as i64 {
        i32::MAX
    } else if x < i32::MIN as i64 {
        i32::MIN
    } else {
        x as i32
    }
}

pub fn clamp_i64(x: i64, lo: i64, hi: i64) -> (r: i64)
    requires
        lo <= hi,
    ensures
        r as int == clamp_between(x as int, lo as int, hi as int),
{
    if x > hi {
        hi
    } else if x < lo {
        lo
    } else {
        x
    }
}

pub fn div_i64(a: i64, b: i64) -> (r: i64)
    requires
        b > 0,
    ensures
        r as int == div_trunc(a as int, b as int),
{
    proof {
        if a >= 0 {
            vstd::arithmetic::div_mod::lemma_div_nonincreasing(a as int, b as int);
            vstd::arithmetic::div_mod::lemma_div_pos_is_pos(a as int, b as int);
        } else {
            vstd::arithmetic::div_mod::lemma_div_nonincreasing(-(a as int), b as int);
            vstd::arithmetic::div_mod::lemma_div_pos_is_pos(-(a as int), b as int);
        }
    }
    match a.checked_div(b) {
        Some(r) => r,
        None => 0,
    }
}

/// Scale a lane by a gain in millionths; the gain must already be within
/// [`GAIN_LIMIT`](crate::GAIN_LIMIT) so the product fits in 64 bits.
pub fn scale_lane_exec(v: i32, g: i64) -> (r: i32)
    requires
        -4_000_000_000i64 <= g <= 4_000_000_000i64,
    ensures
        r as int == scale_lane(v as int, g as int),
{
    proof {
        assert((v as int) * (g as int) <= 2_147_483_648 * 4_000_000_000 && (v as int) * (g as int)
            >= -(2_147_483_648 * 4_000_000_000)) by (nonlinear_arith)
            requires
                -2_147_483_648 <= v as int <= 2_147_483_647,
                -4_000_000_000 <= g as int <= 4_000_000_000,
        ;
    }
    let p: i64 = (v as i64) * g;
    let q = div_i64(p, 1_000_000);
    clamp_to_i32(q)
}

/// Halving keeps a value within half of its old bound.
pub proof fn lemma_div_trunc_halves(x: int)
    requires
        -2_000_000_000_000 <= x <= 2_000_000_000_000,
    ensures
        -1_000_000_000_000 <= div_trunc(x, 2) <= 1_000_000_000_000,
{
    if x >= 0 {
        vstd::arithmetic::div_mod::lemma_div_pos_is_pos(x, 2);
        vstd::arithmetic::div_mod::lemma_div_is_ordered(x, 2_000_000_000_000, 2);
    } else {
        vstd::arithmetic::div_mod::lemma_div_pos_is_pos(-x, 2);
        vstd::arithmetic::div_mod::lemma_div_is_ordered(-x, 2_000_000_000_000, 2);
    }
}

/// Truncating division never grows a value's magnitude.
pub proof fn lemma_div_trunc_magnitude(a: int, b: int, m: int)
    requires
        b >= 1,
        0 <= m,
        -m <= a <= m,
    ensures
        -m <= div_trunc(a, b) <= m,
{
    if a >= 0 {
        vstd::arithmetic::div_mod::lemma_div_pos_is_pos(a, b);
        vstd::arithmetic::div_mod::lemma_div_nonincreasing(a, b);
    } else {
        vstd::arithmetic::div_mod::lemma_div_pos_is_pos(-a, b);
        vstd::arithmetic::div_mod::lemma_div_nonincreasing(-a, b);
    }
}

/// A quotient is bounded by any multiple of the divisor that bounds the
/// dividend.
pub proof fn lemma_div_trunc_bound(a: int, b: int, m: int)
    requires
        b >= 1,
        m >= 0,
        -m * b <= a <= m * b,
    ensures
        -m <= div_trunc(a, b) <= m,
{
    assert((-m) * b == -(m * b)) by (nonlinear_arith);
    if a >= 0 {
        vstd::arithmetic::div_mod::lemma_div_pos_is_pos(a, b);
        vstd::arithmetic::div_mod::lemma_div_is_ordered(a, m * b, b);
        assert(m * b == b * m) by (nonlinear_arith);
        vstd::arithmetic::div_mod::lemma_div_multiples_vanish(m, b);
    } else {
        vstd::arithmetic::div_mod::lemma_div_pos_is_pos(-a, b);
        vstd::arithmetic::div_mod::lemma_div_is_ordered(-a, m * b, b);
        assert(m * b == b * m) by (nonlinear_arith);
        vstd::arithmetic::div_mod::lemma_div_multiples_vanish(m, b);
    }
}

/// Truncating division by a count keeps a lane within the lane range.
pub proof fn lemma_div_trunc_in_lane_range(a: int, k: int)
    requires
        k >= 1,
        i32::MIN as int <= a <= i32::MAX as int,
    ensures
        i32::MIN as int <= div_trunc(a, k) <= i32::MAX as int,
        clamp32(div_trunc(a, k)) == div_trunc(a, k),
{
    if a >= 0 {
        vstd::arithmetic::div_mod::lemma_div_nonincreasing(a, k);
        vstd::arithmetic::div_mod::lemma_div_pos_is_pos(a, k);
    } else {
        vstd::arithmetic::div_mod::lemma_div_nonincreasing(-a, k);
        vstd::arithmetic::div_mod::lemma_div_pos_is_pos(-a, k);
    }
}

/// Truncating division is the identity when the divisor exactly cancels:
/// `(v * k) / k == v` for positive `k`.
pub proof fn lemma_div_trunc_cancel(v: int, k: int)
    requires
        k > 0,
    ensures
        div_trunc(v * k, k) == v,
{
    if v >= 0 {
        assert(v * k >= 0) by (nonlinear_arith)
            requires
                v >= 0,
                k > 0,
        ;
        vstd::arithmetic::div_mod::lemma_div_multiples_vanish(v, k);
        assert(v * k == k * v) by (nonlinear_arith);
    } else {
        assert(v * k < 0) by (nonlinear_arith)
            requires
                v < 0,
                k > 0,
        ;
        assert(-(v * k) == (-v) * k) by (nonlinear_arith);
        vstd::arithmetic::div_mod::lemma_div_multiples_vanish(-v, k);
        assert((-v) * k == k * (-v)) by (nonlinear_arith);
    }
}

/// Dividing by one changes nothing.
pub proof fn lemma_div_trunc_one(a: int)
    ensures
        div_trunc(a, 1) == a,
{
    if a >= 0 {
        lemma_div_trunc_cancel(a, 1);
    } else {
        lemma_div_trunc_cancel(a, 1);
    }
    assert(a * 1 == a) by (nonlinear_arith);
}

} // verus!
