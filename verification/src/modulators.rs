//! Parameter modulators: pure functions from sample time to a control value.
//!
//! A modulator is evaluated at a time given in samples and yields a value in
//! millionths, which the node then writes into one parameter of its
//! processor. Three shapes are provided: a hold (step), a linear ramp, and a
//! sine low-frequency oscillator.

use vstd::prelude::*;

use crate::num::{clamp_between, clamp_i64, div_i64, div_trunc};
use crate::wave::{lemma_sine_bounds, micro_turns, sine_micro, sine_value};

verus! {

/// Emit the first value before the given moment and the second from it on.
pub struct Hold {
    pub v1: i64,
    pub v2: i64,
    pub time: u32,
}

pub open spec fn hold_value(v1: int, v2: int, time: int, now: int) -> int {
    if now < time {
        v1
    } else {
        v2
    }
}

impl Hold {
    pub fn new(v1: i64, v2: i64, time: u32) -> (r: Hold)
        ensures
            r.v1 == v1,
            r.v2 == v2,
            r.time == time,
    {
        Hold { v1, v2, time }
    }

    /// The value at the given time, in millionths.
    pub fn get(&self, now: u32) -> (r: i64)
        ensures
            r as int == hold_value(self.v1 as int, self.v2 as int, self.time as int, now as int),
    {
        if now < self.time {
            self.v1
        } else {
            self.v2
        }
    }
}

/// Ramp linearly from one value to another over a time interval.
pub struct Linear {
    pub start: i64,
    pub end: i64,
    pub start_at: u32,
    pub end_at: u32,
}

/// The ramp value: the end value from the end of the interval on (also when
/// the interval is empty), the start value up to its start, and the linear
/// interpolation with truncating division in between.
pub open spec fn linear_value(s: int, e: int, t0: int, t1: int, now: int) -> int {
    if now >= t1 {
        e
    } else if now <= t0 {
        s
    } else {
        s + div_trunc((e - s) * (now - t0), t1 - t0)
    }
}

impl Linear {
    pub fn new(start: i64, end: i64, start_at: u32, end_at: u32) -> (r: Linear)
        ensures
            r.start == start,
            r.end == end,
            r.start_at == start_at,
            r.end_at == end_at,
    {
        Linear { start, end, start_at, end_at }
    }

    /// The value at the given time, in millionths.
    pub fn get(&self, now: u32) -> (r: i64)
        ensures
            r as int == linear_value(
                self.start as int,
                self.end as int,
                self.start_at as int,
                self.end_at as int,
                now as int,
            ),
    {
        if now >= self.end_at {
            return self.end;
        }
        if now <= self.start_at {
            return self.start;
        }
        let elapsed = (now - self.start_at) as i128;
        let duration = (self.end_at - self.start_at) as i128;
        let diff = (self.end as i128) - (self.start as i128);
        proof {
            assert((diff as int) * (elapsed as int) <= 36_893_488_147_419_103_230
                * 4_294_967_295 && (diff as int) * (elapsed as int) >= -(
            36_893_488_147_419_103_230 * 4_294_967_295)) by (nonlinear_arith)
                requires
                    -36_893_488_147_419_103_230 <= diff as int <= 36_893_488_147_419_103_230,
                    0 <= elapsed as int <= 4_294_967_295,
            ;
            lemma_interpolation_bounds(
                self.start as int,
                self.end as int,
                elapsed as int,
                duration as int,
            );
        }
        let p: i128 = diff * elapsed;
        let q: i128 = match p.checked_div(duration) {
            Some(v) => v,
            None => 0,
        };
        let r: i128 = (self.start as i128) + q;
        r as i64
    }
}

/// The interpolation step stays between zero and the value difference, so the
/// interpolated value stays between the two endpoint values.
proof fn lemma_interpolation_bounds(s: int, e: int, elapsed: int, duration: int)
    requires
        1 <= elapsed < duration,
    ensures
        e - s >= 0 ==> 0 <= div_trunc((e - s) * elapsed, duration) <= e - s,
        e - s < 0 ==> e - s <= div_trunc((e - s) * elapsed, duration) <= 0,
{
    let d = e - s;
    if d >= 0 {
        assert(0 <= d * elapsed <= d * duration) by (nonlinear_arith)
            requires
                d >= 0,
                1 <= elapsed < duration,
        ;
        vstd::arithmetic::div_mod::lemma_div_pos_is_pos(d * elapsed, duration);
        vstd::arithmetic::div_mod::lemma_div_is_ordered(d * elapsed, d * duration, duration);
        assert(d * duration == duration * d) by (nonlinear_arith);
        vstd::arithmetic::div_mod::lemma_div_multiples_vanish(d, duration);
    } else {
        assert(0 <= (-d) * elapsed <= (-d) * duration) by (nonlinear_arith)
            requires
                d < 0,
                1 <= elapsed < duration,
        ;
        assert(-(d * elapsed) == (-d) * elapsed) by (nonlinear_arith);
        vstd::arithmetic::div_mod::lemma_div_pos_is_pos((-d) * elapsed, duration);
        vstd::arithmetic::div_mod::lemma_div_is_ordered((-d) * elapsed, (-d) * duration, duration);
        assert((-d) * duration == duration * (-d)) by (nonlinear_arith);
        vstd::arithmetic::div_mod::lemma_div_multiples_vanish(-d, duration);
    }
}

/// A sine low-frequency oscillator between a low and a high value.
pub struct Sine {
    pub freq_micro: i64,
    pub mid: i64,
    pub amp: i64,
}

/// The oscillator value: the midpoint plus the amplitude scaled by the sine
/// of the angle the frequency has swept after `now` samples.
pub open spec fn sine_lfo_value(freq_micro: int, mid: int, amp: int, now: int) -> int {
    mid + div_trunc(amp * sine_micro(((freq_micro * now) % 44_100_000_000) / 44_100), 1_000_000)
}

impl Sine {
    /// Build the oscillator from a frequency in millionths of a hertz and
    /// the low and high value of the swing, in millionths. The frequency is
    /// clamped to one turn per sample; the endpoint values are clamped to a
    /// million full-scale units so the arithmetic stays within 64 bits.
    pub fn new(freq_micro: i64, low: i64, high: i64) -> (r: Sine)
        ensures
            r.freq_micro as int == clamp_between(freq_micro as int, 0, 44_099_999_999),
            r.amp as int == div_trunc(
                clamp_between(high as int, -1_000_000_000_000, 1_000_000_000_000) - clamp_between(
                    low as int,
                    -1_000_000_000_000,
                    1_000_000_000_000,
                ),
                2,
            ),
            r.mid as int == clamp_between(low as int, -1_000_000_000_000, 1_000_000_000_000)
                + r.amp as int,
            -1_000_000_000_000 <= r.amp <= 1_000_000_000_000,
            -2_000_000_000_000 <= r.mid <= 2_000_000_000_000,
    {
        let f = clamp_i64(freq_micro, 0, 44_099_999_999);
        let lo = clamp_i64(low, -1_000_000_000_000, 1_000_000_000_000);
        let hi = clamp_i64(high, -1_000_000_000_000, 1_000_000_000_000);
        let amp = div_i64(hi - lo, 2);
        proof {
            crate::num::lemma_div_trunc_halves(hi as int - lo as int);
        }
        let mid = lo + amp;
        Sine { freq_micro: f, mid, amp }
    }

    /// The value at the given time, in millionths.
    pub fn get(&self, now: u32) -> (r: i64)
        requires
            0 <= self.freq_micro < 44_100_000_000,
            -1_000_000_000_000 <= self.amp <= 1_000_000_000_000,
            -2_000_000_000_000 <= self.mid <= 2_000_000_000_000,
        ensures
            r as int == sine_lfo_value(
                self.freq_micro as int,
                self.mid as int,
                self.amp as int,
                now as int,
            ),
    {
        proof {
            assert((self.freq_micro as int) * (now as int) <= 44_100_000_000 * 4_294_967_295 && 0
                <= (self.freq_micro as int) * (now as int)) by (nonlinear_arith)
                requires
                    0 <= self.freq_micro as int <= 44_100_000_000,
                    0 <= now as int <= 4_294_967_295,
            ;
        }
        let swept: u128 = (self.freq_micro as u128) * (now as u128);
        let ticks: u64 = (swept % 44_100_000_000u128) as u64;
        let u = micro_turns(ticks);
        let s = sine_value(u);
        proof {
            lemma_sine_bounds(u as int);
            assert((self.amp as int) * (s as int) <= 1_000_000_000_000 * 1_000_000 && (
            self.amp as int) * (s as int) >= -1_000_000_000_000 * 1_000_000) by (nonlinear_arith)
                requires
                    -1_000_000_000_000 <= self.amp as int <= 1_000_000_000_000,
                    -1_000_000 <= s as int <= 1_000_000,
            ;
            crate::num::lemma_div_trunc_magnitude(
                (self.amp as int) * (s as int),
                1_000_000,
                1_000_000_000_000_000_000,
            );
        }
        let scaled = div_i64(self.amp * (s as i64), 1_000_000);
        self.mid + scaled
    }
}

/// A modulator of any shape.
pub enum Modulator {
    Hold(Hold),
    Linear(Linear),
    Sine(Sine),
}

/// The value a modulator takes at a time, in millionths.
pub open spec fn modulator_value(m: Modulator, now: int) -> int {
    match m {
        Modulator::Hold(h) => hold_value(h.v1 as int, h.v2 as int, h.time as int, now),
        Modulator::Linear(l) => linear_value(
            l.start as int,
            l.end as int,
            l.start_at as int,
            l.end_at as int,
            now,
        ),
        Modulator::Sine(s) => sine_lfo_value(s.freq_micro as int, s.mid as int, s.amp as int, now),
    }
}

/// A sine modulator is only well formed with the clamped fields its
/// constructor produces.
pub open spec fn modulator_wf(m: Modulator) -> bool {
    match m {
        Modulator::Hold(_) => true,
        Modulator::Linear(_) => true,
        Modulator::Sine(s) => 0 <= s.freq_micro < 44_100_000_000 && -1_000_000_000_000 <= s.amp
            <= 1_000_000_000_000 && -2_000_000_000_000 <= s.mid <= 2_000_000_000_000,
    }
}

impl Modulator {
    /// The value at the given time, in millionths.
    pub fn get(&self, now: u32) -> (r: i64)
        requires
            modulator_wf(*self),
        ensures
            r as int == modulator_value(*self, now as int),
    {
        match self {
            Modulator::Hold(h) => h.get(now),
            Modulator::Linear(l) => l.get(now),
            Modulator::Sine(s) => s.get(now),
        }
    }
}

} // verus!
