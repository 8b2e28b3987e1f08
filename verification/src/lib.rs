//! A real-time audio engine built around a tree of processor nodes.
//!
//! The engine pulls fixed blocks of eight samples from the root of the tree,
//! mixes and transforms them, and packs the result as interleaved 16-bit PCM
//! into a caller-provided buffer. Sample values and control parameters are
//! fixed-point integers: one full-scale unit is [`UNIT`] millionths.

pub mod error;
pub mod laws;
pub mod manager;
pub mod modulators;
pub mod node;
pub mod num;
pub mod pcm;
pub mod processor;
pub mod processors;
pub mod sample;
pub mod sources;
pub mod wave;

use vstd::prelude::*;

verus! {

/// The fixed output sample rate, in frames per second.
pub const SAMPLE_RATE: u32 = 44_100;

/// One full-scale sample or parameter unit, in millionths.
pub const UNIT: i64 = 1_000_000;

/// The most children one node can hold.
pub const MAX_CHILDREN: usize = 4;

/// The most nodes one graph can hold, the root included.
pub const MAX_NODES: usize = 32;

/// How many samples pass between two modulator evaluations.
pub const MODULATE_EVERY: u32 = 735;

/// Ticks in one full oscillator turn: at the fixed sample rate, a step of
/// one tick per sample is one millionth of a hertz.
pub const PHASE_MOD: u64 = 44_100_000_000;

} // verus!
