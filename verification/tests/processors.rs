//! Frame-level behavior of the individual processors.

use firefly_audio::node::{mix_frames, take_left_mono, take_right_mono};
use firefly_audio::processors::{Delay, FadeIn, Gain, LowHighPass, Mute, OneDelay, Pan, Swap};
use firefly_audio::sample::{Frame, Sample};
use firefly_audio::sources::{Noise, Sawtooth, Sine, Square, Triangle, Zero};

fn splat_frame(v: i32) -> Frame {
    Frame::mono(Sample::splat(v))
}

#[test]
fn swap_twice_is_identity_on_stereo() {
    let left = Sample::new([1, 2, 3, 4, 5, 6, 7, 8]);
    let right = Sample::new([11, 12, 13, 14, 15, 16, 17, 18]);
    let f = Frame::stereo(left, right);
    let sw = Swap::new();
    let once = sw.process_frame(&f);
    assert_eq!(once.left.lanes, right.lanes);
    assert_eq!(once.right.unwrap().lanes, left.lanes);
    let twice = sw.process_frame(&once);
    assert_eq!(twice.left.lanes, left.lanes);
    assert_eq!(twice.right.unwrap().lanes, right.lanes);
}

#[test]
fn swap_is_identity_on_mono() {
    let f = splat_frame(123);
    let sw = Swap::new();
    let once = sw.process_frame(&f);
    assert_eq!(once.left.lanes, f.left.lanes);
    assert!(once.right.is_none());
}

#[test]
fn gain_unit_is_identity() {
    let f = Frame::stereo(
        Sample::new([-5, 0, 7, 1_000_000, -1_000_000, 3, 4, 5]),
        Sample::new([9, 8, 7, 6, 5, 4, 3, 2]),
    );
    let g = Gain::new(1_000_000);
    let out = g.process_frame(&f);
    assert_eq!(out.left.lanes, f.left.lanes);
    assert_eq!(out.right.unwrap().lanes, f.right.unwrap().lanes);
}

#[test]
fn gain_halves() {
    let f = splat_frame(1_000_000);
    let g = Gain::new(500_000);
    let out = g.process_frame(&f);
    assert_eq!(out.left.lanes, [500_000; 8]);
}

#[test]
fn mix_is_identity_on_one_frame() {
    let f = splat_frame(123_456);
    let frames = vec![Some(f)];
    let out = mix_frames(&frames).unwrap();
    assert_eq!(out.left.lanes, f.left.lanes);
}

#[test]
fn mix_averages_and_skips_ended() {
    let frames = vec![Some(splat_frame(100)), None, Some(splat_frame(50))];
    let out = mix_frames(&frames).unwrap();
    assert_eq!(out.left.lanes, [75; 8]);
}

#[test]
fn mix_of_all_ended_ends() {
    let frames: Vec<Option<Frame>> = vec![None, None];
    assert!(mix_frames(&frames).is_none());
}

#[test]
fn take_left_and_right_of_stereo() {
    let left = Sample::new([1, 2, 3, 4, 5, 6, 7, 8]);
    let right = Sample::new([11, 12, 13, 14, 15, 16, 17, 18]);
    let frames = vec![Frame::stereo(left, right)];
    let l = take_left_mono(&frames);
    assert_eq!(l.left.lanes, left.lanes);
    assert!(l.right.is_none());
    let r = take_right_mono(&frames);
    assert_eq!(r.left.lanes, right.lanes);
    assert!(r.right.is_none());
}

#[test]
fn delay_of_one_equals_onedelay() {
    let mut d = Delay::new(1);
    let mut od = OneDelay::new();
    let inputs = [10, -20, 30, 40, -50];
    for v in inputs {
        let f = splat_frame(v);
        let from_delay = d.process_frame(f);
        let from_onedelay = od.process_frame(f);
        assert_eq!(from_delay.left.lanes, from_onedelay.left.lanes);
    }
}

#[test]
fn delay_three_rings() {
    let mut d = Delay::new(3);
    let out1 = d.process_frame(splat_frame(1));
    let out2 = d.process_frame(splat_frame(2));
    let out3 = d.process_frame(splat_frame(3));
    let out4 = d.process_frame(splat_frame(4));
    assert_eq!(out1.left.lanes, [0; 8]);
    assert_eq!(out2.left.lanes, [0; 8]);
    assert_eq!(out3.left.lanes, [0; 8]);
    assert_eq!(out4.left.lanes, [1; 8]);
}

#[test]
fn fade_in_ramps_over_unit_input() {
    let mut fd = FadeIn::new(0, 8);
    let unit = splat_frame(1_000_000);
    let first = fd.process_frame(&unit);
    assert_eq!(
        first.left.lanes,
        [0, 125_000, 250_000, 375_000, 500_000, 625_000, 750_000, 875_000]
    );
    let second = fd.process_frame(&unit);
    assert_eq!(second.left.lanes, [1_000_000; 8]);
    let third = fd.process_frame(&unit);
    assert_eq!(third.left.lanes, [1_000_000; 8]);
}

#[test]
fn fade_in_starts_at_initial_gain() {
    let mut fd = FadeIn::new(500_000, 16);
    let unit = splat_frame(1_000_000);
    let first = fd.process_frame(&unit);
    assert_eq!(first.left.lanes[0], 500_000);
    assert!(first.left.lanes[7] > 500_000);
}

#[test]
fn mute_silences_and_releases() {
    let f = Frame::stereo(Sample::splat(7), Sample::splat(9));
    let mut m = Mute::new();
    let clear = m.process_frame(&f);
    assert_eq!(clear.left.lanes, [7; 8]);
    m.mute();
    let muted = m.process_frame(&f);
    assert_eq!(muted.left.lanes, [0; 8]);
    assert_eq!(muted.right.unwrap().lanes, [0; 8]);
    m.unmute();
    let back = m.process_frame(&f);
    assert_eq!(back.right.unwrap().lanes, [9; 8]);
}

#[test]
fn pan_center_weights_are_equal() {
    let p = Pan::new(0);
    assert_eq!(p.left_weight, 705_882);
    assert_eq!(p.right_weight, 705_882);
}

#[test]
fn pan_hard_left_keeps_left() {
    let p = Pan::new(-1_000_000);
    assert_eq!(p.left_weight, 1_000_000);
    assert_eq!(p.right_weight, 0);
    let f = Frame::stereo(Sample::splat(1000), Sample::splat(1000));
    let out = p.process_frame(&f);
    assert_eq!(out.left.lanes, [1000; 8]);
    assert_eq!(out.right.unwrap().lanes, [0; 8]);
}

#[test]
fn zero_emits_silence() {
    let z = Zero::new();
    let f = z.next_block();
    assert_eq!(f.left.lanes, [0; 8]);
    assert!(f.right.is_none());
}

#[test]
fn sine_starts_at_phase_zero() {
    let mut o = Sine::new(441_000_000, 0);
    let f = o.next_block();
    assert_eq!(f.left.lanes[0], 0);
    assert!(f.left.lanes[1] > 0);
}

#[test]
fn sine_phase_is_exact_modular_time() {
    let mut o = Sine::new(441_000_000, 0);
    for _ in 0..12 {
        o.next_block();
    }
    assert_eq!(o.phase, 42_336_000_000);
    o.next_block();
    assert_eq!(o.phase, 1_764_000_000);
}

#[test]
fn oscillator_phase_returns_after_full_cycles() {
    // 5512.5 Hz: eight samples sweep exactly one turn.
    let mut o = Sine::new(5_512_500_000, 250_000);
    let start = o.phase;
    o.next_block();
    assert_eq!(o.phase, start);
    let f = o.next_block();
    assert_eq!(f.left.lanes[0], 1_000_000);
}

#[test]
fn oscillator_reset_returns_to_initial_phase() {
    let mut o = Triangle::new(441_000_000, 125_000);
    let initial = o.phase;
    o.next_block();
    assert_ne!(o.phase, initial);
    o.reset();
    assert_eq!(o.phase, initial);
}

#[test]
fn square_is_low_then_high() {
    let mut lo = Square::new(0, 0);
    let f = lo.next_block();
    assert_eq!(f.left.lanes, [-1_000_000; 8]);
    let mut hi = Square::new(0, 750_000);
    let f = hi.next_block();
    assert_eq!(f.left.lanes, [1_000_000; 8]);
}

#[test]
fn sawtooth_rises_over_the_turn() {
    let mut o = Sawtooth::new(0, 0);
    let f = o.next_block();
    assert_eq!(f.left.lanes, [-1_000_000; 8]);
    let mut mid = Sawtooth::new(0, 500_000);
    let f = mid.next_block();
    assert_eq!(f.left.lanes, [0; 8]);
}

#[test]
fn triangle_peaks_at_turn_start() {
    let mut o = Triangle::new(0, 0);
    let f = o.next_block();
    assert_eq!(f.left.lanes, [1_000_000; 8]);
    let mut lo = Triangle::new(0, 500_000);
    let f = lo.next_block();
    assert_eq!(f.left.lanes, [-1_000_000; 8]);
    let mut mid = Triangle::new(0, 250_000);
    let f = mid.next_block();
    assert_eq!(f.left.lanes, [0; 8]);
}

#[test]
fn noise_follows_xorshift() {
    let mut n = Noise::new(1);
    let f = n.next_block();
    assert_eq!(n.states[0], 270_369);
    assert_eq!(f.left.lanes[0], 125);
}

#[test]
fn filter_coefficients_at_half_rate() {
    let f = LowHighPass::new(true, 22_050, 1_000_000);
    assert_eq!(f.b0, 1_000_000);
    assert_eq!(f.b1, 2_000_000);
    assert_eq!(f.b2, 1_000_000);
    assert_eq!(f.a1, 2_000_000);
    assert_eq!(f.a2, 1_000_000);
}

#[test]
fn filter_passes_first_block_scaled() {
    let mut f = LowHighPass::new(true, 22_050, 1_000_000);
    let out = f.process_sample(&Sample::splat(1000));
    assert_eq!(out.lanes, [1000; 8]);
}
