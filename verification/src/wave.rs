//! Integer sine wave evaluation.
//!
//! Angles are measured in millionths of a turn; results are in millionths of
//! full scale. The first half turn uses a rational approximation of
//! `sin(pi * t)` that is exact at the quarter points (`0`, `1/4`, `1/2`,
//! `3/4` of a turn give `0`, `1`, `0`, `-1`); the second half turn is the
//! negated first half.
//!
//! Oscillator phase is kept separately in "ticks": one turn is
//! [`PHASE_MOD`](crate::PHASE_MOD) ticks, so that one tick per sample equals
//! one millionth of a hertz at the fixed sample rate, and any whole number of
//! cycles returns the phase exactly to its starting value.

use vstd::prelude::*;

use crate::num::div_trunc;

verus! {

/// `sin(pi * x / 500_000)` in millionths, for `x` in `[0, 500_000]`.
pub open spec fn half_sine(x: int) -> int
    recommends
        0 <= x <= 500_000,
{
    div_trunc(16_000_000 * (x * (500_000 - x)), 1_250_000_000_000 - 4 * (x * (500_000 - x)))
}

/// `sin(2 * pi * u / 1_000_000)` in millionths, for `u` in `[0, 1_000_000)`.
pub open spec fn sine_micro(u: int) -> int
    recommends
        0 <= u < 1_000_000,
{
    if u <= 500_000 {
        half_sine(u)
    } else {
        -half_sine(u - 500_000)
    }
}

proof fn lemma_half_sine_bounds(x: int)
    requires
        0 <= x <= 500_000,
    ensures
        0 <= half_sine(x) <= 1_000_000,
{
    let a = x * (500_000 - x);
    assert(0 <= a <= 62_500_000_000) by (nonlinear_arith)
        requires
            0 <= x <= 500_000,
            a == x * (500_000 - x),
    ;
    let num = 16_000_000 * a;
    let den = 1_250_000_000_000 - 4 * a;
    assert(num >= 0 && den > 0 && num <= 1_000_000 * den) by (nonlinear_arith)
        requires
            0 <= a <= 62_500_000_000,
            num == 16_000_000 * a,
            den == 1_250_000_000_000 - 4 * a,
    ;
    vstd::arithmetic::div_mod::lemma_div_pos_is_pos(num, den);
    vstd::arithmetic::div_mod::lemma_div_is_ordered(num, 1_000_000 * den, den);
    vstd::arithmetic::div_mod::lemma_div_multiples_vanish(1_000_000, den);
}

/// In the first half turn the sine is nonnegative.
pub proof fn lemma_sine_first_half_nonneg(u: int)
    requires
        0 <= u <= 500_000,
    ensures
        0 <= sine_micro(u) <= 1_000_000,
{
    lemma_half_sine_bounds(u);
}

/// The sine value never leaves full scale.
pub proof fn lemma_sine_bounds(u: int)
    requires
        0 <= u < 1_000_000,
    ensures
        -1_000_000 <= sine_micro(u) <= 1_000_000,
{
    if u <= 500_000 {
        lemma_half_sine_bounds(u);
    } else {
        lemma_half_sine_bounds(u - 500_000);
    }
}

/// The sine is exact at the quarter points of the turn.
pub proof fn lemma_sine_quarters()
    ensures
        sine_micro(0) == 0,
        sine_micro(250_000) == 1_000_000,
        sine_micro(500_000) == 0,
        sine_micro(750_000) == -1_000_000,
{
    assert(sine_micro(0) == 0);
    assert(250_000 * (500_000 - 250_000) == 62_500_000_000);
    assert(half_sine(250_000) == div_trunc(1_000_000_000_000_000_000, 1_000_000_000_000));
    assert(half_sine(250_000) == 1_000_000);
    assert(500_000 * (500_000 - 500_000) == 0);
    assert(sine_micro(500_000) == 0);
    assert(750_000 - 500_000 == 250_000);
    assert(sine_micro(750_000) == -1_000_000);
}

fn half_sine_exec(x: u32) -> (r: i32)
    requires
        x <= 500_000,
    ensures
        r as int == half_sine(x as int),
        0 <= r <= 1_000_000,
{
    let xl = x as u64;
    proof {
        assert(0 <= (xl as int) * (500_000 - xl as int) <= 62_500_000_000) by (nonlinear_arith)
            requires
                0 <= xl as int <= 500_000,
        ;
    }
    let a: u64 = xl * (500_000 - xl);
    let num: u64 = 16_000_000 * a;
    let den: u64 = 1_250_000_000_000 - 4 * a;
    let r = num / den;
    proof {
        lemma_half_sine_bounds(x as int);
    }
    r as i32
}

/// The sine of an angle given in millionths of a turn, in millionths.
pub fn sine_value(u: u32) -> (r: i32)
    requires
        u < 1_000_000,
    ensures
        r as int == sine_micro(u as int),
        -1_000_000 <= r <= 1_000_000,
{
    if u <= 500_000 {
        half_sine_exec(u)
    } else {
        let v = half_sine_exec(u - 500_000);
        -v
    }
}

/// Advance a phase by a step, wrapping at one full turn of ticks.
pub fn phase_add(p: u64, step: u64) -> (r: u64)
    requires
        p < 44_100_000_000,
        step < 44_100_000_000,
    ensures
        r as int == (p as int + step as int) % 44_100_000_000,
        r < 44_100_000_000,
{
    (p + step) % 44_100_000_000
}

/// The angle of a phase, in millionths of a turn.
pub fn micro_turns(p: u64) -> (r: u32)
    requires
        p < 44_100_000_000,
    ensures
        r as int == (p as int) / 44_100,
        r < 1_000_000,
{
    let q = p / 44_100;
    proof {
        vstd::arithmetic::div_mod::lemma_div_is_ordered(p as int, 44_099_999_999, 44_100);
        assert(44_099_999_999int / 44_100 == 999_999);
    }
    q as u32
}

} // verus!
