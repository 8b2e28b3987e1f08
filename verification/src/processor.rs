//! The closed set of processors a node can carry.
//!
//! A node stores one processor; the node layer decides, by the variant, how
//! child frames are pulled and combined, and then applies the variant's
//! transform. Parameters are set by small integer index through [`Processor::set`];
//! index zero is each processor's primary parameter.

use vstd::prelude::*;

use crate::num::clamp_i64;
use crate::pcm::Pcm;
use crate::processors::{
    delay_wf, gain_level, lhp_coefs_wf, AllForOne, Concat, Delay, FadeIn, FilterState, Gain, Loop,
    LowHighPass, Mix, Mute, OneDelay, Pan, Pause, Swap, TakeLeft, TakeRight, TrackPosition,
};
use crate::sample::seq_zero;
use crate::sources::{osc_step, osc_wf, Empty, Noise, Sawtooth, Sine, Square, Triangle, Zero};

verus! {

/// The behavior bound to a node.
pub enum Processor {
    Mix(Mix),
    AllForOne(AllForOne),
    Gain(Gain),
    Loop(Loop),
    Concat(Concat),
    Pan(Pan),
    Mute(Mute),
    Pause(Pause),
    TrackPosition(TrackPosition),
    FadeIn(FadeIn),
    LowHighPass(LowHighPass),
    TakeLeft(TakeLeft),
    TakeRight(TakeRight),
    Swap(Swap),
    OneDelay(OneDelay),
    Delay(Delay),
    Empty(Empty),
    Zero(Zero),
    Sine(Sine),
    Square(Square),
    Sawtooth(Sawtooth),
    Triangle(Triangle),
    Noise(Noise),
    Pcm(Pcm),
}

/// The internal bounds every constructor establishes and every method keeps.
pub open spec fn processor_wf(p: Processor) -> bool {
    match p {
        Processor::Gain(g) => -4_000_000_000 <= g.lvl <= 4_000_000_000,
        Processor::Pan(w) => -1_000_000 <= w.left_weight <= 1_000_000 && -1_000_000
            <= w.right_weight <= 1_000_000,
        Processor::FadeIn(f) => 0 <= f.gain0 <= 1_000_000,
        Processor::LowHighPass(f) => lhp_coefs_wf(f),
        Processor::Delay(d) => delay_wf(d),
        Processor::Sine(o) => osc_wf(o.step, o.phase, o.initial_phase),
        Processor::Square(o) => osc_wf(o.step, o.phase, o.initial_phase),
        Processor::Sawtooth(o) => osc_wf(o.step, o.phase, o.initial_phase),
        Processor::Triangle(o) => osc_wf(o.step, o.phase, o.initial_phase),
        _ => true,
    }
}

/// What setting a parameter does: the gain's level and an oscillator's
/// frequency answer to index zero; every other write is ignored.
pub open spec fn set_spec(a: Processor, param: u8, val: i64, b: Processor) -> bool {
    match a {
        Processor::Gain(g1) => if param == 0 {
            match b {
                Processor::Gain(g2) => g2.lvl as int == gain_level(val as int),
                _ => false,
            }
        } else {
            b == a
        },
        Processor::Sine(o1) => if param == 0 {
            match b {
                Processor::Sine(o2) => o2.step as int == osc_step(val as int) && o2.phase
                    == o1.phase && o2.initial_phase == o1.initial_phase,
                _ => false,
            }
        } else {
            b == a
        },
        Processor::Square(o1) => if param == 0 {
            match b {
                Processor::Square(o2) => o2.step as int == osc_step(val as int) && o2.phase
                    == o1.phase && o2.initial_phase == o1.initial_phase,
                _ => false,
            }
        } else {
            b == a
        },
        Processor::Sawtooth(o1) => if param == 0 {
            match b {
                Processor::Sawtooth(o2) => o2.step as int == osc_step(val as int) && o2.phase
                    == o1.phase && o2.initial_phase == o1.initial_phase,
                _ => false,
            }
        } else {
            b == a
        },
        Processor::Triangle(o1) => if param == 0 {
            match b {
                Processor::Triangle(o2) => o2.step as int == osc_step(val as int) && o2.phase
                    == o1.phase && o2.initial_phase == o1.initial_phase,
                _ => false,
            }
        } else {
            b == a
        },
        _ => b == a,
    }
}

/// What a reset does: gates reopen, counters and phases return to their
/// initial values, filter registers clear; everything else is untouched.
pub open spec fn reset_spec(a: Processor, b: Processor) -> bool {
    match a {
        Processor::Mute(_) => b == Processor::Mute(Mute { muted: false }),
        Processor::Pause(_) => b == Processor::Pause(Pause { paused: false }),
        Processor::TrackPosition(_) => b == Processor::TrackPosition(
            TrackPosition { elapsed: 0 },
        ),
        Processor::Sine(o1) => match b {
            Processor::Sine(o2) => o2.step == o1.step && o2.phase == o1.initial_phase
                && o2.initial_phase == o1.initial_phase,
            _ => false,
        },
        Processor::Square(o1) => match b {
            Processor::Square(o2) => o2.step == o1.step && o2.phase == o1.initial_phase
                && o2.initial_phase == o1.initial_phase,
            _ => false,
        },
        Processor::Sawtooth(o1) => match b {
            Processor::Sawtooth(o2) => o2.step == o1.step && o2.phase == o1.initial_phase
                && o2.initial_phase == o1.initial_phase,
            _ => false,
        },
        Processor::Triangle(o1) => match b {
            Processor::Triangle(o2) => o2.step == o1.step && o2.phase == o1.initial_phase
                && o2.initial_phase == o1.initial_phase,
            _ => false,
        },
        Processor::LowHighPass(f1) => match b {
            Processor::LowHighPass(f2) => f2.fstate() == (FilterState {
                x1: seq_zero(),
                x2: seq_zero(),
                y1: seq_zero(),
                y2: seq_zero(),
            }) && f2.b0 == f1.b0 && f2.b1 == f1.b1 && f2.b2 == f1.b2 && f2.a1 == f1.a1 && f2.a2
                == f1.a2 && f2.low == f1.low && f2.freq == f1.freq && f2.q_micro == f1.q_micro,
            _ => false,
        },
        _ => b == a,
    }
}

impl Processor {
    /// Write a parameter by index; processors without that parameter ignore
    /// the write.
    pub fn set(&mut self, param: u8, val: i64)
        requires
            processor_wf(*old(self)),
        ensures
            processor_wf(*final(self)),
            set_spec(*old(self), param, val, *final(self)),
    {
        match self {
            Processor::Gain(g) => {
                if param == 0 {
                    g.lvl = clamp_i64(val, -4_000_000_000, 4_000_000_000);
                }
            },
            Processor::Sine(o) => {
                if param == 0 {
                    o.set_freq(val);
                }
            },
            Processor::Square(o) => {
                if param == 0 {
                    o.set_freq(val);
                }
            },
            Processor::Sawtooth(o) => {
                if param == 0 {
                    o.set_freq(val);
                }
            },
            Processor::Triangle(o) => {
                if param == 0 {
                    o.set_freq(val);
                }
            },
            _ => {},
        }
    }

    /// Return the processor's own state to its initial value.
    pub fn reset(&mut self)
        requires
            processor_wf(*old(self)),
        ensures
            processor_wf(*final(self)),
            reset_spec(*old(self), *final(self)),
    {
        match self {
            Processor::Mute(m) => {
                m.muted = false;
            },
            Processor::Pause(p) => {
                p.paused = false;
            },
            Processor::TrackPosition(t) => {
                t.elapsed = 0;
            },
            Processor::Sine(o) => {
                o.reset();
            },
            Processor::Square(o) => {
                o.reset();
            },
            Processor::Sawtooth(o) => {
                o.reset();
            },
            Processor::Triangle(o) => {
                o.reset();
            },
            Processor::LowHighPass(f) => {
                f.reset();
            },
            _ => {},
        }
    }
}

} // verus!
