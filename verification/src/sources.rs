//! Sources: processors with no inputs that produce new blocks.
//!
//! The oscillators keep their phase in ticks: one full turn is
//! `44_100_000_000` ticks, so a step of one tick per sample is one millionth
//! of a hertz, and the phase arithmetic is exact. The waveform value of a
//! block lane is a function of the phase after that lane's advance.

use vstd::prelude::*;

use crate::num::{clamp_between, clamp_i64, div_i64, div_trunc};
use crate::sample::{seq_zero, Frame, FrameV, Sample};
use crate::wave::{micro_turns, phase_add, sine_micro, sine_value};

verus! {

/// The phase after `k` single-sample advances of `s` ticks, wrapping at a
/// full turn.
pub open spec fn phase_after(p: int, s: int, k: nat) -> int
    decreases k,
{
    if k == 0 {
        p
    } else {
        (phase_after(p, s, (k - 1) as nat) + s) % 44_100_000_000
    }
}

/// The angle of a phase, in millionths of a turn.
pub open spec fn turns_of(p: int) -> int {
    p / 44_100
}

/// A phase that starts under a full turn stays under it.
pub proof fn lemma_phase_after_in_range(p: int, s: int, k: nat)
    requires
        0 <= p < 44_100_000_000,
        0 <= s,
    ensures
        0 <= phase_after(p, s, k) < 44_100_000_000,
    decreases k,
{
    if k > 0 {
        lemma_phase_after_in_range(p, s, (k - 1) as nat);
        vstd::arithmetic::div_mod::lemma_mod_division_less_than_divisor(
            phase_after(p, s, (k - 1) as nat) + s,
            44_100_000_000,
        );
    }
}

/// A sound source that has always already stopped.
pub struct Empty {}

impl Empty {
    pub fn new() -> (r: Empty) {
        Empty {}
    }
}

/// A sound source that produces silent blocks, forever.
pub struct Zero {}

impl Zero {
    pub fn new() -> (r: Zero) {
        Zero {}
    }

    /// The next block: always silence.
    pub fn next_block(&self) -> (r: Frame)
        ensures
            r@ == (FrameV { left: seq_zero(), right: None }),
    {
        Frame::zero()
    }
}

/// The phase bookkeeping every oscillator shares: advance eight times and
/// report each lane's angle in millionths of a turn.
fn angles8(phase: u64, step: u64) -> (r: ([u32; 8], u64))
    requires
        phase < 44_100_000_000,
        step < 44_100_000_000,
    ensures
        r.1 as int == phase_after(phase as int, step as int, 8),
        r.1 < 44_100_000_000,
        forall|k: int|
            0 <= k < 8 ==> r.0[k] as int == turns_of(phase_after(phase as int, step as int, k as nat)),
        forall|k: int| 0 <= k < 8 ==> r.0[k] < 1_000_000,
{
    let u0 = micro_turns(phase);
    let p1 = phase_add(phase, step);
    let u1 = micro_turns(p1);
    let p2 = phase_add(p1, step);
    let u2 = micro_turns(p2);
    let p3 = phase_add(p2, step);
    let u3 = micro_turns(p3);
    let p4 = phase_add(p3, step);
    let u4 = micro_turns(p4);
    let p5 = phase_add(p4, step);
    let u5 = micro_turns(p5);
    let p6 = phase_add(p5, step);
    let u6 = micro_turns(p6);
    let p7 = phase_add(p6, step);
    let u7 = micro_turns(p7);
    let p8 = phase_add(p7, step);
    proof {
        reveal_with_fuel(phase_after, 9);
        let pi = phase as int;
        let si = step as int;
        assert(p1 as int == phase_after(pi, si, 1));
        assert(p2 as int == phase_after(pi, si, 2));
        assert(p3 as int == phase_after(pi, si, 3));
        assert(p4 as int == phase_after(pi, si, 4));
        assert(p5 as int == phase_after(pi, si, 5));
        assert(p6 as int == phase_after(pi, si, 6));
        assert(p7 as int == phase_after(pi, si, 7));
        assert(p8 as int == phase_after(pi, si, 8));
    }
    ([u0, u1, u2, u3, u4, u5, u6, u7], p8)
}

/// A sine oscillator: each lane is the sine of the phase angle.
pub open spec fn sine_lane(p: int, s: int, k: nat) -> int {
    sine_micro(turns_of(phase_after(p, s, k)))
}

/// A square oscillator: low in the first half turn, high in the second.
pub open spec fn square_lane(p: int, s: int, k: nat) -> int {
    if turns_of(phase_after(p, s, k)) >= 500_000 {
        1_000_000
    } else {
        -1_000_000
    }
}

/// A sawtooth oscillator: rises linearly over the turn.
pub open spec fn sawtooth_lane(p: int, s: int, k: nat) -> int {
    2 * turns_of(phase_after(p, s, k)) - 1_000_000
}

/// A triangle oscillator: rises and falls linearly over the turn.
pub open spec fn triangle_lane(p: int, s: int, k: nat) -> int {
    abs_int(4 * turns_of(phase_after(p, s, k)) - 2_000_000) - 1_000_000
}

pub open spec fn abs_int(x: int) -> int {
    if x < 0 {
        -x
    } else {
        x
    }
}

/// Sine wave oscillator.
pub struct Sine {
    pub step: u64,
    pub phase: u64,
    pub initial_phase: u64,
}

/// One block pulled from a sine oscillator: the phase advances by eight
/// samples and each lane carries the wave at its own sample position.
pub open spec fn sine_gen(a: Sine, b: Sine, r: Option<FrameV>) -> bool {
    &&& b.step == a.step
    &&& b.initial_phase == a.initial_phase
    &&& b.phase as int == phase_after(a.phase as int, a.step as int, 8)
    &&& r is Some
    &&& r->0.right is None
    &&& forall|k: int|
        0 <= k < 8 ==> r->0.left[k] == sine_lane(a.phase as int, a.step as int, k as nat)
}

/// One block pulled from a square oscillator.
pub open spec fn square_gen(a: Square, b: Square, r: Option<FrameV>) -> bool {
    &&& b.step == a.step
    &&& b.initial_phase == a.initial_phase
    &&& b.phase as int == phase_after(a.phase as int, a.step as int, 8)
    &&& r is Some
    &&& r->0.right is None
    &&& forall|k: int|
        0 <= k < 8 ==> r->0.left[k] == square_lane(a.phase as int, a.step as int, k as nat)
}

/// One block pulled from a sawtooth oscillator.
pub open spec fn sawtooth_gen(a: Sawtooth, b: Sawtooth, r: Option<FrameV>) -> bool {
    &&& b.step == a.step
    &&& b.initial_phase == a.initial_phase
    &&& b.phase as int == phase_after(a.phase as int, a.step as int, 8)
    &&& r is Some
    &&& r->0.right is None
    &&& forall|k: int|
        0 <= k < 8 ==> r->0.left[k] == sawtooth_lane(a.phase as int, a.step as int, k as nat)
}

/// One block pulled from a triangle oscillator.
pub open spec fn triangle_gen(a: Triangle, b: Triangle, r: Option<FrameV>) -> bool {
    &&& b.step == a.step
    &&& b.initial_phase == a.initial_phase
    &&& b.phase as int == phase_after(a.phase as int, a.step as int, 8)
    &&& r is Some
    &&& r->0.right is None
    &&& forall|k: int|
        0 <= k < 8 ==> r->0.left[k] == triangle_lane(a.phase as int, a.step as int, k as nat)
}

/// One block pulled from the noise source: every lane's state steps by the
/// xorshift recurrence and the lane carries the new state scaled down.
pub open spec fn noise_gen(a: Noise, b: Noise, r: Option<FrameV>) -> bool {
    &&& forall|k: int| 0 <= k < 8 ==> b.states[k] == xorshift(a.states[k])
    &&& r is Some
    &&& r->0.right is None
    &&& forall|k: int| 0 <= k < 8 ==> r->0.left[k] == noise_lane(b.states[k])
}

/// Square wave oscillator.
pub struct Square {
    pub step: u64,
    pub phase: u64,
    pub initial_phase: u64,
}

/// Sawtooth wave oscillator.
pub struct Sawtooth {
    pub step: u64,
    pub phase: u64,
    pub initial_phase: u64,
}

/// Triangle wave oscillator.
pub struct Triangle {
    pub step: u64,
    pub phase: u64,
    pub initial_phase: u64,
}

/// The step an oscillator stores for a frequency given in millionths of a
/// hertz: the same number in ticks per sample, held under a full turn.
pub open spec fn osc_step(freq_micro: int) -> int {
    clamp_between(freq_micro, 0, 44_099_999_999)
}

/// The ticks of an initial phase given in millionths of a turn.
pub open spec fn osc_initial(phase_micro: int) -> int {
    44_100 * clamp_between(phase_micro, 0, 999_999)
}

pub open spec fn osc_wf(step: u64, phase: u64, initial_phase: u64) -> bool {
    step < 44_100_000_000 && phase < 44_100_000_000 && initial_phase < 44_100_000_000
}

impl Sine {
    /// Build the oscillator from a frequency in millionths of a hertz and an
    /// initial phase in millionths of a turn.
    pub fn new(freq_micro: i64, phase_micro: i64) -> (r: Sine)
        ensures
            r.step as int == osc_step(freq_micro as int),
            r.initial_phase as int == osc_initial(phase_micro as int),
            r.phase == r.initial_phase,
            osc_wf(r.step, r.phase, r.initial_phase),
    {
        let step = clamp_i64(freq_micro, 0, 44_099_999_999) as u64;
        let initial = 44_100 * (clamp_i64(phase_micro, 0, 999_999) as u64);
        Sine { step, phase: initial, initial_phase: initial }
    }

    /// Return the phase to its initial value.
    pub fn reset(&mut self)
        ensures
            final(self).phase == old(self).initial_phase,
            final(self).step == old(self).step,
            final(self).initial_phase == old(self).initial_phase,
    {
        self.phase = self.initial_phase;
    }

    /// Set the frequency, in millionths of a hertz.
    pub fn set_freq(&mut self, freq_micro: i64)
        ensures
            final(self).step as int == osc_step(freq_micro as int),
            final(self).phase == old(self).phase,
            final(self).initial_phase == old(self).initial_phase,
    {
        self.step = clamp_i64(freq_micro, 0, 44_099_999_999) as u64;
    }

    /// Produce the next block and advance the phase by eight samples.
    pub fn next_block(&mut self) -> (r: Frame)
        requires
            osc_wf(old(self).step, old(self).phase, old(self).initial_phase),
        ensures
            osc_wf(final(self).step, final(self).phase, final(self).initial_phase),
            final(self).step == old(self).step,
            final(self).initial_phase == old(self).initial_phase,
            final(self).phase as int == phase_after(old(self).phase as int, old(self).step as int, 8),
            r@.right is None,
            forall|k: int|
                0 <= k < 8 ==> r@.left[k] == sine_lane(
                    old(self).phase as int,
                    old(self).step as int,
                    k as nat,
                ),
            sine_gen(*old(self), *final(self), Some(r@)),
    {
        let (us, p) = angles8(self.phase, self.step);
        self.phase = p;
        let l0 = sine_value(us[0]);
        let l1 = sine_value(us[1]);
        let l2 = sine_value(us[2]);
        let l3 = sine_value(us[3]);
        let l4 = sine_value(us[4]);
        let l5 = sine_value(us[5]);
        let l6 = sine_value(us[6]);
        let l7 = sine_value(us[7]);
        Frame::mono(Sample::new([l0, l1, l2, l3, l4, l5, l6, l7]))
    }
}

impl Square {
    /// Build the oscillator from a frequency in millionths of a hertz and an
    /// initial phase in millionths of a turn.
    pub fn new(freq_micro: i64, phase_micro: i64) -> (r: Square)
        ensures
            r.step as int == osc_step(freq_micro as int),
            r.initial_phase as int == osc_initial(phase_micro as int),
            r.phase == r.initial_phase,
            osc_wf(r.step, r.phase, r.initial_phase),
    {
        let step = clamp_i64(freq_micro, 0, 44_099_999_999) as u64;
        let initial = 44_100 * (clamp_i64(phase_micro, 0, 999_999) as u64);
        Square { step, phase: initial, initial_phase: initial }
    }

    /// Return the phase to its initial value.
    pub fn reset(&mut self)
        ensures
            final(self).phase == old(self).initial_phase,
            final(self).step == old(self).step,
            final(self).initial_phase == old(self).initial_phase,
    {
        self.phase = self.initial_phase;
    }

    /// Set the frequency, in millionths of a hertz.
    pub fn set_freq(&mut self, freq_micro: i64)
        ensures
            final(self).step as int == osc_step(freq_micro as int),
            final(self).phase == old(self).phase,
            final(self).initial_phase == old(self).initial_phase,
    {
        self.step = clamp_i64(freq_micro, 0, 44_099_999_999) as u64;
    }

    /// Produce the next block and advance the phase by eight samples.
    pub fn next_block(&mut self) -> (r: Frame)
        requires
            osc_wf(old(self).step, old(self).phase, old(self).initial_phase),
        ensures
            osc_wf(final(self).step, final(self).phase, final(self).initial_phase),
            final(self).step == old(self).step,
            final(self).initial_phase == old(self).initial_phase,
            final(self).phase as int == phase_after(old(self).phase as int, old(self).step as int, 8),
            r@.right is None,
            forall|k: int|
                0 <= k < 8 ==> r@.left[k] == square_lane(
                    old(self).phase as int,
                    old(self).step as int,
                    k as nat,
                ),
            square_gen(*old(self), *final(self), Some(r@)),
    {
        let (us, p) = angles8(self.phase, self.step);
        self.phase = p;
        let l0 = square_of(us[0]);
        let l1 = square_of(us[1]);
        let l2 = square_of(us[2]);
        let l3 = square_of(us[3]);
        let l4 = square_of(us[4]);
        let l5 = square_of(us[5]);
        let l6 = square_of(us[6]);
        let l7 = square_of(us[7]);
        Frame::mono(Sample::new([l0, l1, l2, l3, l4, l5, l6, l7]))
    }
}

fn square_of(u: u32) -> (r: i32)
    ensures
        r as int == (if u >= 500_000 {
            1_000_000int
        } else {
            -1_000_000int
        }),
{
    if u >= 500_000 {
        1_000_000
    } else {
        -1_000_000
    }
}

fn sawtooth_of(u: u32) -> (r: i32)
    requires
        u < 1_000_000,
    ensures
        r as int == 2 * (u as int) - 1_000_000,
{
    2 * (u as i32) - 1_000_000
}

fn triangle_of(u: u32) -> (r: i32)
    requires
        u < 1_000_000,
    ensures
        r as int == abs_int(4 * (u as int) - 2_000_000) - 1_000_000,
{
    let d: i64 = 4 * (u as i64) - 2_000_000;
    let a: i64 = if d < 0 {
        -d
    } else {
        d
    };
    (a - 1_000_000) as i32
}

impl Sawtooth {
    /// Build the oscillator from a frequency in millionths of a hertz and an
    /// initial phase in millionths of a turn.
    pub fn new(freq_micro: i64, phase_micro: i64) -> (r: Sawtooth)
        ensures
            r.step as int == osc_step(freq_micro as int),
            r.initial_phase as int == osc_initial(phase_micro as int),
            r.phase == r.initial_phase,
            osc_wf(r.step, r.phase, r.initial_phase),
    {
        let step = clamp_i64(freq_micro, 0, 44_099_999_999) as u64;
        let initial = 44_100 * (clamp_i64(phase_micro, 0, 999_999) as u64);
        Sawtooth { step, phase: initial, initial_phase: initial }
    }

    /// Return the phase to its initial value.
    pub fn reset(&mut self)
        ensures
            final(self).phase == old(self).initial_phase,
            final(self).step == old(self).step,
            final(self).initial_phase == old(self).initial_phase,
    {
        self.phase = self.initial_phase;
    }

    /// Set the frequency, in millionths of a hertz.
    pub fn set_freq(&mut self, freq_micro: i64)
        ensures
            final(self).step as int == osc_step(freq_micro as int),
            final(self).phase == old(self).phase,
            final(self).initial_phase == old(self).initial_phase,
    {
        self.step = clamp_i64(freq_micro, 0, 44_099_999_999) as u64;
    }

    /// Produce the next block and advance the phase by eight samples.
    pub fn next_block(&mut self) -> (r: Frame)
        requires
            osc_wf(old(self).step, old(self).phase, old(self).initial_phase),
        ensures
            osc_wf(final(self).step, final(self).phase, final(self).initial_phase),
            final(self).step == old(self).step,
            final(self).initial_phase == old(self).initial_phase,
            final(self).phase as int == phase_after(old(self).phase as int, old(self).step as int, 8),
            r@.right is None,
            forall|k: int|
                0 <= k < 8 ==> r@.left[k] == sawtooth_lane(
                    old(self).phase as int,
                    old(self).step as int,
                    k as nat,
                ),
            sawtooth_gen(*old(self), *final(self), Some(r@)),
    {
        let (us, p) = angles8(self.phase, self.step);
        self.phase = p;
        let l0 = sawtooth_of(us[0]);
        let l1 = sawtooth_of(us[1]);
        let l2 = sawtooth_of(us[2]);
        let l3 = sawtooth_of(us[3]);
        let l4 = sawtooth_of(us[4]);
        let l5 = sawtooth_of(us[5]);
        let l6 = sawtooth_of(us[6]);
        let l7 = sawtooth_of(us[7]);
        Frame::mono(Sample::new([l0, l1, l2, l3, l4, l5, l6, l7]))
    }
}

impl Triangle {
    /// Build the oscillator from a frequency in millionths of a hertz and an
    /// initial phase in millionths of a turn.
    pub fn new(freq_micro: i64, phase_micro: i64) -> (r: Triangle)
        ensures
            r.step as int == osc_step(freq_micro as int),
            r.initial_phase as int == osc_initial(phase_micro as int),
            r.phase == r.initial_phase,
            osc_wf(r.step, r.phase, r.initial_phase),
    {
        let step = clamp_i64(freq_micro, 0, 44_099_999_999) as u64;
        let initial = 44_100 * (clamp_i64(phase_micro, 0, 999_999) as u64);
        Triangle { step, phase: initial, initial_phase: initial }
    }

    /// Return the phase to its initial value.
    pub fn reset(&mut self)
        ensures
            final(self).phase == old(self).initial_phase,
            final(self).step == old(self).step,
            final(self).initial_phase == old(self).initial_phase,
    {
        self.phase = self.initial_phase;
    }

    /// Set the frequency, in millionths of a hertz.
    pub fn set_freq(&mut self, freq_micro: i64)
        ensures
            final(self).step as int == osc_step(freq_micro as int),
            final(self).phase == old(self).phase,
            final(self).initial_phase == old(self).initial_phase,
    {
        self.step = clamp_i64(freq_micro, 0, 44_099_999_999) as u64;
    }

    /// Produce the next block and advance the phase by eight samples.
    pub fn next_block(&mut self) -> (r: Frame)
        requires
            osc_wf(old(self).step, old(self).phase, old(self).initial_phase),
        ensures
            osc_wf(final(self).step, final(self).phase, final(self).initial_phase),
            final(self).step == old(self).step,
            final(self).initial_phase == old(self).initial_phase,
            final(self).phase as int == phase_after(old(self).phase as int, old(self).step as int, 8),
            r@.right is None,
            forall|k: int|
                0 <= k < 8 ==> r@.left[k] == triangle_lane(
                    old(self).phase as int,
                    old(self).step as int,
                    k as nat,
                ),
            triangle_gen(*old(self), *final(self), Some(r@)),
    {
        let (us, p) = angles8(self.phase, self.step);
        self.phase = p;
        let l0 = triangle_of(us[0]);
        let l1 = triangle_of(us[1]);
        let l2 = triangle_of(us[2]);
        let l3 = triangle_of(us[3]);
        let l4 = triangle_of(us[4]);
        let l5 = triangle_of(us[5]);
        let l6 = triangle_of(us[6]);
        let l7 = triangle_of(us[7]);
        Frame::mono(Sample::new([l0, l1, l2, l3, l4, l5, l6, l7]))
    }
}

/// One step of the xorshift pseudo-random recurrence on a 32-bit state.
pub open spec fn xorshift(x: u32) -> u32 {
    let a = x ^ (x << 13);
    let b = a ^ (a >> 17);
    b ^ (b << 5)
}

/// A signed reading of a 32-bit word.
pub open spec fn to_signed32(x: int) -> int {
    if x >= 2_147_483_648 {
        x - 4_294_967_296
    } else {
        x
    }
}

/// The lane a noise state produces: the signed state scaled to millionths.
pub open spec fn noise_lane(x: u32) -> int {
    div_trunc(to_signed32(x as int) * 1_000_000, 2_147_483_647)
}

/// White noise: eight parallel xorshift streams.
pub struct Noise {
    pub states: [u32; 8],
}

impl Noise {
    /// Seed the eight lanes with consecutive values starting at the seed.
    pub fn new(seed: i32) -> (r: Noise)
        ensures
            forall|k: int| 0 <= k < 8 ==> r.states[k] == (seed as u32).wrapping_add(k as u32),
    {
        let s = seed as u32;
        Noise {
            states: [
                s,
                s.wrapping_add(1),
                s.wrapping_add(2),
                s.wrapping_add(3),
                s.wrapping_add(4),
                s.wrapping_add(5),
                s.wrapping_add(6),
                s.wrapping_add(7),
            ],
        }
    }

    /// Produce the next block and advance every lane's state.
    pub fn next_block(&mut self) -> (r: Frame)
        ensures
            forall|k: int| 0 <= k < 8 ==> final(self).states[k] == xorshift(old(self).states[k]),
            r@.right is None,
            forall|k: int| 0 <= k < 8 ==> r@.left[k] == noise_lane(final(self).states[k]),
            noise_gen(*old(self), *final(self), Some(r@)),
    {
        let s0 = xorshift_exec(self.states[0]);
        let s1 = xorshift_exec(self.states[1]);
        let s2 = xorshift_exec(self.states[2]);
        let s3 = xorshift_exec(self.states[3]);
        let s4 = xorshift_exec(self.states[4]);
        let s5 = xorshift_exec(self.states[5]);
        let s6 = xorshift_exec(self.states[6]);
        let s7 = xorshift_exec(self.states[7]);
        self.states = [s0, s1, s2, s3, s4, s5, s6, s7];
        let l0 = noise_lane_exec(s0);
        let l1 = noise_lane_exec(s1);
        let l2 = noise_lane_exec(s2);
        let l3 = noise_lane_exec(s3);
        let l4 = noise_lane_exec(s4);
        let l5 = noise_lane_exec(s5);
        let l6 = noise_lane_exec(s6);
        let l7 = noise_lane_exec(s7);
        Frame::mono(Sample::new([l0, l1, l2, l3, l4, l5, l6, l7]))
    }
}

fn xorshift_exec(x: u32) -> (r: u32)
    ensures
        r == xorshift(x),
{
    let a = x ^ (x << 13u32);
    let b = a ^ (a >> 17u32);
    b ^ (b << 5u32)
}

fn noise_lane_exec(x: u32) -> (r: i32)
    ensures
        r as int == noise_lane(x),
{
    let signed: i64 = if x >= 2_147_483_648u32 {
        (x as i64) - 4_294_967_296i64
    } else {
        x as i64
    };
    let scaled = div_i64(signed * 1_000_000, 2_147_483_647);
    proof {
        crate::num::lemma_div_trunc_magnitude(
            to_signed32(x as int) * 1_000_000,
            2_147_483_647,
            2_148_000_000_000_000,
        );
    }
    scaled as i32
}

} // verus!
