//! Modulator behavior on concrete times, in millionths.

use firefly_audio::modulators::{Hold, Linear, Sine};

#[test]
fn modulators_switch() {
    let lfo = Hold::new(2_000_000, 4_000_000, 10);
    assert_eq!(lfo.get(0), 2_000_000);
    assert_eq!(lfo.get(6), 2_000_000);
    assert_eq!(lfo.get(9), 2_000_000);

    assert_eq!(lfo.get(10), 4_000_000);
    assert_eq!(lfo.get(11), 4_000_000);
    assert_eq!(lfo.get(12), 4_000_000);
    assert_eq!(lfo.get(21), 4_000_000);
    assert_eq!(lfo.get(100), 4_000_000);
}

#[test]
fn modulators_ramp_up() {
    let lfo = Linear::new(2_000_000, 4_000_000, 10, 20);
    assert_eq!(lfo.get(0), 2_000_000);
    assert_eq!(lfo.get(8), 2_000_000);
    assert_eq!(lfo.get(10), 2_000_000);

    assert_eq!(lfo.get(20), 4_000_000);
    assert_eq!(lfo.get(23), 4_000_000);
    assert_eq!(lfo.get(100), 4_000_000);

    assert_eq!(lfo.get(13), 2_600_000);
    assert_eq!(lfo.get(15), 3_000_000);
    assert_eq!(lfo.get(17), 3_400_000);
}

#[test]
fn modulators_cut_down() {
    let lfo = Linear::new(4_000_000, 2_000_000, 10, 20);
    assert_eq!(lfo.get(0), 4_000_000);
    assert_eq!(lfo.get(8), 4_000_000);
    assert_eq!(lfo.get(10), 4_000_000);

    assert_eq!(lfo.get(20), 2_000_000);
    assert_eq!(lfo.get(23), 2_000_000);
    assert_eq!(lfo.get(100), 2_000_000);

    assert_eq!(lfo.get(13), 3_400_000);
    assert_eq!(lfo.get(15), 3_000_000);
    assert_eq!(lfo.get(17), 2_600_000);
}

#[test]
fn modulators_sine() {
    const R: u32 = 44_100;
    let lfo = Sine::new(1_000_000, -1_000_000, 1_000_000);
    assert_eq!(lfo.get(0), 0);
    assert!(lfo.get(1) > 0);
    assert_eq!(lfo.get(R / 4), 1_000_000);
    assert_eq!(lfo.get(R / 2), 0);
    assert!(lfo.get(R / 2 + 1) < 0);
    assert_eq!(lfo.get(R * 3 / 4), -1_000_000);
    assert_eq!(lfo.get(R), 0);
}

#[test]
fn linear_zero_duration_gives_end() {
    let lfo = Linear::new(2_000_000, 4_000_000, 10, 10);
    assert_eq!(lfo.get(10), 4_000_000);
    assert_eq!(lfo.get(9), 2_000_000);
    assert_eq!(lfo.get(11), 4_000_000);
}

#[test]
fn hold_boundary() {
    let lfo = Hold::new(2_000_000, 4_000_000, 10);
    assert_eq!(lfo.get(9), 2_000_000);
    assert_eq!(lfo.get(10), 4_000_000);
}
