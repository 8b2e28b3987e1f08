//! End-to-end scenarios through the graph manager and the output stager.

use firefly_audio::error::{NodeError, PcmError};
use firefly_audio::manager::Manager;
use firefly_audio::pcm::Pcm;
use firefly_audio::processor::Processor;
use firefly_audio::processors::{Concat, Gain, Mix};
use firefly_audio::modulators::{Hold, Modulator};
use firefly_audio::sources::{Square, Zero};

fn zero_proc() -> Processor {
    Processor::Zero(Zero::new())
}

/// A constant source at full scale: a square wave in its high half with no
/// step.
fn one_proc() -> Processor {
    Processor::Square(Square::new(0, 750_000))
}

/// A constant source at negative full scale.
fn minus_one_proc() -> Processor {
    Processor::Square(Square::new(0, 0))
}

/// A one-frame 16-bit mono file at full scale, then end of stream.
fn one_frame_file() -> Vec<u8> {
    let mut data = vec![0x31, 0b010, 68, 172];
    for _ in 0..8 {
        data.push(0xFF);
        data.push(0x7F);
    }
    data
}

#[test]
fn empty_ends_and_zero_does_not() {
    let mut e = firefly_audio::node::Node {
        children: vec![],
        proc: Processor::Empty(firefly_audio::sources::Empty::new()),
        modulator: None,
    };
    assert!(e.next_frame().is_none());
    let mut z = firefly_audio::node::Node {
        children: vec![],
        proc: zero_proc(),
        modulator: None,
    };
    let f = z.next_frame().unwrap();
    assert_eq!(f.left.lanes, [0; 8]);
}

#[test]
fn silent_root_writes_zeros() {
    let mut mgr = Manager::new();
    let mut buf: Vec<i16> = vec![77; 64];
    mgr.write(&mut buf);
    assert!(buf.iter().all(|v| *v == 0));
}

#[test]
fn zero_source_never_ends() {
    let mut mgr = Manager::new();
    mgr.add_node(0, zero_proc()).unwrap();
    let mut buf: Vec<i16> = vec![55; 16];
    mgr.write(&mut buf);
    assert!(buf.iter().all(|v| *v == 0));
    let mut buf2: Vec<i16> = vec![44; 16];
    mgr.write(&mut buf2);
    assert!(buf2.iter().all(|v| *v == 0));
}

#[test]
fn partial_buffer_continuation() {
    let mut mgr = Manager::new();
    mgr.add_node(0, zero_proc()).unwrap();
    let mut buf17: Vec<i16> = vec![9; 17];
    mgr.write(&mut buf17);
    assert!(buf17.iter().all(|v| *v == 0));
    assert!(mgr.prev.is_some());
    assert_eq!(mgr.consumed, 1);
    let mut buf15: Vec<i16> = vec![9; 15];
    mgr.write(&mut buf15);
    assert!(buf15.iter().all(|v| *v == 0));
    assert!(mgr.prev.is_none());
    assert_eq!(mgr.consumed, 0);
}

#[test]
fn mix_averages_two_constants() {
    let mut mgr = Manager::new();
    mgr.add_node(0, one_proc()).unwrap();
    mgr.add_node(0, zero_proc()).unwrap();
    let mut buf: Vec<i16> = vec![0; 16];
    mgr.write(&mut buf);
    // (1.0 + 0.0) / 2 scaled to the 16-bit range.
    assert!(buf.iter().all(|v| *v == 16_383));
}

#[test]
fn concat_plays_first_then_second() {
    let mut mgr = Manager::new();
    let concat = mgr.add_node(0, Processor::Concat(Concat::new())).unwrap();
    let pcm = Pcm::from_file(one_frame_file()).unwrap();
    mgr.add_node(concat, Processor::Pcm(pcm)).unwrap();
    mgr.add_node(concat, minus_one_proc()).unwrap();
    let mut first: Vec<i16> = vec![0; 16];
    mgr.write(&mut first);
    assert!(first.iter().all(|v| *v == 32_767));
    let mut second: Vec<i16> = vec![0; 16];
    mgr.write(&mut second);
    assert!(second.iter().all(|v| *v == -32_767));
    let mut third: Vec<i16> = vec![0; 16];
    mgr.write(&mut third);
    assert!(third.iter().all(|v| *v == -32_767));
}

#[test]
fn fan_out_and_node_caps() {
    let mut mgr = Manager::new();
    for _ in 0..4 {
        mgr.add_node(0, zero_proc()).unwrap();
    }
    assert_eq!(mgr.add_node(0, zero_proc()), Err(NodeError::TooManyChildren));
    // Fill the table to 32 entries by fanning out under earlier nodes.
    let mut count = 5; // root + 4 children
    let mut parent = 1;
    while count < 32 {
        match mgr.add_node(parent, zero_proc()) {
            Ok(_) => count += 1,
            Err(NodeError::TooManyChildren) => parent += 1,
            Err(e) => panic!("unexpected error: {:?}", e),
        }
    }
    assert_eq!(mgr.add_node(1, zero_proc()), Err(NodeError::TooManyNodes));
}

#[test]
fn unknown_id_is_reported() {
    let mut mgr = Manager::new();
    assert_eq!(mgr.add_node(7, zero_proc()), Err(NodeError::UnknownID(7)));
    assert_eq!(mgr.clear(9), Err(NodeError::UnknownID(9)));
    assert_eq!(mgr.reset_node(3), Err(NodeError::UnknownID(3)));
    assert!(mgr.get_node(0).is_ok());
    assert_eq!(mgr.get_node(1), Err(NodeError::UnknownID(1)));
}

#[test]
fn clear_keeps_identifiers_meaningful() {
    let mut mgr = Manager::new();
    let a = mgr.add_node(0, Processor::Mix(Mix::new())).unwrap();
    let b = mgr.add_node(a, zero_proc()).unwrap();
    let c = mgr.add_node(0, one_proc()).unwrap();
    mgr.clear(a).unwrap();
    // The deep child's identifier now aliases the cleared node; the sibling
    // is untouched; fresh identifiers keep growing.
    assert!(mgr.get_node(b).is_ok());
    assert!(mgr.get_node(c).is_ok());
    let d = mgr.add_node(c, zero_proc()).unwrap();
    assert_eq!(d, 4);
    let mut buf: Vec<i16> = vec![0; 16];
    mgr.write(&mut buf);
    // The cleared mixer has no children left and reports end of stream, so
    // the root hears only the constant source (a source ignores children).
    assert!(buf.iter().all(|v| *v == 32_767));
}

#[test]
fn modulation_sets_gain_at_time_zero() {
    let mut mgr = Manager::new();
    let gain = mgr.add_node(0, Processor::Gain(Gain::new(1_000_000))).unwrap();
    mgr.add_node(gain, one_proc()).unwrap();
    mgr.modulate(gain, 0, Modulator::Hold(Hold::new(250_000, 250_000, 10)))
        .unwrap();
    let mut buf: Vec<i16> = vec![0; 16];
    mgr.write(&mut buf);
    assert!(buf.iter().all(|v| *v == 8_191));
}

#[test]
fn pause_blocks_and_resumes() {
    let mut mgr = Manager::new();
    let sub = mgr
        .add_node(0, Processor::Pause(firefly_audio::processors::Pause::new()))
        .unwrap();
    mgr.add_node(sub, one_proc()).unwrap();
    let mut buf: Vec<i16> = vec![5; 16];
    mgr.write(&mut buf);
    assert!(buf.iter().all(|v| *v == 32_767));
    let mut paused = firefly_audio::processors::Pause::new();
    paused.pause();
    mgr.set_behavior(sub, Processor::Pause(paused)).unwrap();
    let mut buf2: Vec<i16> = vec![5; 16];
    mgr.write(&mut buf2);
    assert!(buf2.iter().all(|v| *v == 0));
}

#[test]
fn sine_mono_first_block_through_the_stager() {
    let mut mgr = Manager::new();
    mgr.add_node(
        0,
        Processor::Sine(firefly_audio::sources::Sine::new(441_000_000, 0)),
    )
    .unwrap();
    let mut buf: Vec<i16> = vec![1; 16];
    mgr.write(&mut buf);
    // A mono frame is emitted as its left block twice.
    let expected = [0, 2_087, 4_154, 6_193, 8_200, 10_169, 12_094, 13_970];
    assert_eq!(&buf[..8], &expected);
    assert_eq!(&buf[8..], &expected);
}

#[test]
fn loop_stops_when_reset_does_not_restart() {
    // A PCM source does not rewind on reset, so a loop over it plays the
    // file once and then ends.
    let mut mgr = Manager::new();
    let lp = mgr
        .add_node(0, Processor::Loop(firefly_audio::processors::Loop::new()))
        .unwrap();
    let pcm = Pcm::from_file(one_frame_file()).unwrap();
    mgr.add_node(lp, Processor::Pcm(pcm)).unwrap();
    let mut first: Vec<i16> = vec![0; 16];
    mgr.write(&mut first);
    assert!(first.iter().all(|v| *v == 32_767));
    let mut second: Vec<i16> = vec![3; 16];
    mgr.write(&mut second);
    assert!(second.iter().all(|v| *v == 0));
}

#[test]
fn all_for_one_ends_with_any_child() {
    let mut mgr = Manager::new();
    let afo = mgr
        .add_node(
            0,
            Processor::AllForOne(firefly_audio::processors::AllForOne::new()),
        )
        .unwrap();
    mgr.add_node(afo, one_proc()).unwrap();
    let pcm = Pcm::from_file(one_frame_file()).unwrap();
    mgr.add_node(afo, Processor::Pcm(pcm)).unwrap();
    let mut first: Vec<i16> = vec![0; 16];
    mgr.write(&mut first);
    // Both children live: the average of two full-scale frames.
    assert!(first.iter().all(|v| *v == 32_767));
    let mut second: Vec<i16> = vec![5; 16];
    mgr.write(&mut second);
    // The file ended, so the whole mix ends.
    assert!(second.iter().all(|v| *v == 0));
}

#[test]
fn take_left_keeps_only_the_left_channel() {
    let mut mgr = Manager::new();
    let tl = mgr
        .add_node(
            0,
            Processor::TakeLeft(firefly_audio::processors::TakeLeft::new()),
        )
        .unwrap();
    let mut data = vec![0x31, 0b110, 68, 172];
    for _ in 0..8 {
        data.push(0xFF);
        data.push(0x7F); // left: +1.0
        data.push(0x01);
        data.push(0x80); // right: -1.0
    }
    mgr.add_node(tl, Processor::Pcm(Pcm::from_file(data).unwrap()))
        .unwrap();
    let mut buf: Vec<i16> = vec![0; 16];
    mgr.write(&mut buf);
    assert!(buf.iter().all(|v| *v == 32_767));
}

#[test]
fn reset_all_restarts_oscillators() {
    let mut mgr = Manager::new();
    mgr.add_node(
        0,
        Processor::Sine(firefly_audio::sources::Sine::new(441_000_000, 0)),
    )
    .unwrap();
    let mut first: Vec<i16> = vec![0; 16];
    mgr.write(&mut first);
    let mut drift: Vec<i16> = vec![0; 16];
    mgr.write(&mut drift);
    assert_ne!(first, drift);
    mgr.reset_all(0).unwrap();
    let mut again: Vec<i16> = vec![0; 16];
    mgr.write(&mut again);
    assert_eq!(first, again);
}

#[test]
fn stream_end_mid_buffer_fills_silence() {
    let mut mgr = Manager::new();
    let pcm = Pcm::from_file(one_frame_file()).unwrap();
    mgr.add_node(0, Processor::Pcm(pcm)).unwrap();
    let mut buf: Vec<i16> = vec![7; 24];
    mgr.write(&mut buf);
    assert!(buf[..16].iter().all(|v| *v == 32_767));
    assert!(buf[16..].iter().all(|v| *v == 0));
    assert!(mgr.prev.is_none());
    assert_eq!(mgr.consumed, 0);
}

#[test]
fn pcm_header_errors() {
    assert!(matches!(
        Pcm::from_file(vec![0x31, 0]),
        Err(PcmError::TooShort)
    ));
    assert!(matches!(
        Pcm::from_file(vec![0x55, 0, 68, 172]),
        Err(PcmError::BadMagicNumber)
    ));
    assert!(matches!(
        Pcm::from_file(vec![0x31, 0, 0x22, 0x56]),
        Err(PcmError::BadSampleRate(22_050))
    ));
}

#[test]
fn pcm_decodes_and_ends_on_underflow() {
    let mut pcm = Pcm::from_file(one_frame_file()).unwrap();
    let f = pcm.next_block().unwrap();
    assert_eq!(f.left.lanes, [1_000_000; 8]);
    assert!(f.right.is_none());
    assert!(pcm.next_block().is_none());
}

#[test]
fn pcm_eight_bit_decoding() {
    // 8-bit mono: one byte per sample, signed, over 127.
    let mut data = vec![0x31, 0b000, 68, 172];
    data.extend_from_slice(&[127, 200, 0, 1, 255, 128, 64, 63]);
    let mut pcm = Pcm::from_file(data).unwrap();
    let f = pcm.next_block().unwrap();
    assert_eq!(f.left.lanes[0], 1_000_000);
    assert_eq!(f.left.lanes[1], -440_944);
    assert_eq!(f.left.lanes[2], 0);
}

#[test]
fn pcm_stereo_interleaving() {
    // 16-bit stereo: left and right words alternate.
    let mut data = vec![0x31, 0b110, 68, 172];
    for _ in 0..8 {
        data.push(0xFF);
        data.push(0x7F); // left: +1.0
        data.push(0x01);
        data.push(0x80); // right: -1.0 (i16::MIN + 1)
    }
    let mut pcm = Pcm::from_file(data).unwrap();
    let f = pcm.next_block().unwrap();
    assert_eq!(f.left.lanes, [1_000_000; 8]);
    assert_eq!(f.right.unwrap().lanes, [-1_000_000; 8]);
}

#[test]
fn stereo_write_with_distinct_ascending_lanes() {
    // One stereo frame of sixteen distinct ascending samples through the
    // stager into a larger buffer: the left block comes first, then the
    // right block, and the tail past the ended stream is silence.
    let left: [i16; 8] = [1100, 1300, 1500, 1700, 1900, 2100, 2300, 2500];
    let right: [i16; 8] = [1200, 1400, 1600, 1800, 2000, 2200, 2400, 2600];
    let mut data = vec![0x31, 0b110, 68, 172];
    for k in 0..8 {
        data.push((left[k] & 0xFF) as u8);
        data.push((left[k] >> 8) as u8);
        data.push((right[k] & 0xFF) as u8);
        data.push((right[k] >> 8) as u8);
    }
    let mut mgr = Manager::new();
    mgr.add_node(0, Processor::Pcm(Pcm::from_file(data).unwrap()))
        .unwrap();
    let mut buf: Vec<i16> = vec![7; 20];
    mgr.write(&mut buf);
    // Each value loses one unit to the two truncating fixed-point scalings.
    let expected_left = [1099, 1299, 1499, 1699, 1899, 2099, 2299, 2499];
    let expected_right = [1199, 1399, 1599, 1799, 1999, 2199, 2399, 2599];
    assert_eq!(&buf[..8], &expected_left);
    assert_eq!(&buf[8..16], &expected_right);
    for w in buf[..8].windows(2) {
        assert!(w[0] < w[1]);
    }
    for w in buf[8..16].windows(2) {
        assert!(w[0] < w[1]);
    }
    assert_eq!(&buf[16..], &[0, 0, 0, 0]);
}

#[test]
fn stereo_pcm_layout_is_left_block_then_right_block() {
    let mut mgr = Manager::new();
    let pcm = {
        let mut data = vec![0x31, 0b110, 68, 172];
        for _ in 0..8 {
            data.push(0xFF);
            data.push(0x7F);
            data.push(0x01);
            data.push(0x80);
        }
        Pcm::from_file(data).unwrap()
    };
    mgr.add_node(0, Processor::Pcm(pcm)).unwrap();
    let mut buf: Vec<i16> = vec![0; 16];
    mgr.write(&mut buf);
    assert!(buf[..8].iter().all(|v| *v == 32_767));
    assert!(buf[8..].iter().all(|v| *v == -32_767));
}
