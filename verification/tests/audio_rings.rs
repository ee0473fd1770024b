//! Samples between devices and the frame, through rings.

use std::sync::atomic::Ordering;
use std::sync::Arc;

use rtrb::{Consumer, Producer, RingBuffer};
use tributary::audio::assembler::{
    push_frames, Attached, AssemblerCmd, InputAssembler, InputShared, ASSEMBLER_RING_CAPACITY,
};
use tributary::audio::disassembler::{
    push_monitor, AttachedOutput, DisassemblerCmd, OutputDisassembler, OutputShared,
    DISASSEMBLER_RING_CAPACITY,
};
use tributary::audio::streams::{pour_out, prefill, trim, trim_once};
use tributary::engine::ring::{RingRx, RingTx};
use tributary::engine::slots::{MAX_INPUT_CHANNELS, MAX_OUTPUT_CHANNELS};
use tributary::single::Single;

fn s(value: f32) -> Single {
    Single { bits: value.to_bits() }
}

fn all(values: &[f32]) -> Vec<Single> {
    values.iter().map(|v| s(*v)).collect()
}

fn ring(capacity: usize) -> (RingTx<Single>, Consumer<Single>) {
    let (tx, rx) = RingBuffer::new(capacity);
    (RingTx::new(tx), rx)
}

fn assembler() -> (Producer<AssemblerCmd>, Consumer<Box<Attached>>, InputAssembler) {
    let (cmd_tx, cmd_rx) = RingBuffer::new(ASSEMBLER_RING_CAPACITY);
    let (retire_tx, retire_rx) = RingBuffer::new(ASSEMBLER_RING_CAPACITY);
    (cmd_tx, retire_rx, InputAssembler::new(RingRx::new(cmd_rx), RingTx::new(retire_tx)))
}

fn attached(offset: u16, channels: u16, samples: &[f32]) -> (Producer<Single>, Box<Attached>) {
    let (mut tx, rx) = RingBuffer::new(1024);
    for v in samples {
        tx.push(s(*v)).unwrap();
    }
    (
        tx,
        Box::new(Attached {
            consumer: RingRx::new(rx),
            offset,
            channels,
            shared: Arc::new(InputShared::default()),
        }),
    )
}

#[test]
fn assembler_a_full_ring_drops_whole_frames_never_partial_ones() {
    // The capacity is no multiple of the channels: the ring must still never
    // come to rest with a torn frame in it.
    let (mut tx, rx) = ring(5);
    let samples: Vec<Single> = (0..8).map(|i| s(i as f32)).collect();
    let dropped = push_frames(&mut tx, &samples, 2);
    assert_eq!(dropped, 2, "5 slots take 2 whole frames, so 2 are dropped");
    assert_eq!(
        rx.slots() % 2,
        0,
        "a partial frame in the ring rotates the device's channels forever"
    );
    assert_eq!(rx.slots(), 4);
}

#[test]
fn surviving_frames_stay_intact_and_in_order() {
    let (mut tx, mut rx) = ring(64);
    assert_eq!(push_frames(&mut tx, &all(&[1.0, 2.0, 3.0, 4.0]), 2), 0);
    let got: Vec<Single> = std::iter::from_fn(|| rx.pop().ok()).collect();
    assert_eq!(got, all(&[1.0, 2.0, 3.0, 4.0]));
}

#[test]
fn a_frame_that_does_not_fit_is_dropped_whole_not_truncated() {
    let (mut tx, rx) = ring(4);
    push_frames(&mut tx, &all(&[9.0, 9.0, 9.0]), 3);
    assert_eq!(rx.slots(), 3, "the first frame fits");
    assert_eq!(push_frames(&mut tx, &all(&[1.0, 2.0, 3.0]), 3), 1);
    assert_eq!(rx.slots(), 3, "the second frame left nothing behind");
}

#[test]
fn attached_devices_land_at_their_offsets_between_silence() {
    let (mut cmd_tx, _retire, mut assembly) = assembler();
    let (_a, mono) = attached(0, 1, &[0.1, 0.2]);
    let (_b, stereo) = attached(2, 2, &[0.5, -0.5, 0.6, -0.6]);
    assert!(cmd_tx.push(AssemblerCmd::Attach(mono)).is_ok());
    assert!(cmd_tx.push(AssemblerCmd::Attach(stereo)).is_ok());

    let mut frame = vec![s(0.9); 2 * MAX_INPUT_CHANNELS];
    assembly.drain_commands();
    assembly.fill(&mut frame, 2);
    assert_eq!(frame[0], s(0.1));
    assert_eq!(frame[1], s(0.0), "unassigned channels are silence");
    assert_eq!(frame[2], s(0.5));
    assert_eq!(frame[3], s(-0.5));
    assert_eq!(frame[MAX_INPUT_CHANNELS], s(0.2), "frame 1, mono");
    assert_eq!(frame[MAX_INPUT_CHANNELS + 2], s(0.6));
    assert_eq!(frame[63], s(0.0));
}

#[test]
fn a_starved_ring_yields_zeros_and_counts() {
    let (mut cmd_tx, _retire, mut assembly) = assembler();
    let (_tx, dev) = attached(0, 2, &[0.5, 0.5]);
    let shared = dev.shared.clone();
    assert!(cmd_tx.push(AssemblerCmd::Attach(dev)).is_ok());

    let mut frame = vec![s(0.0); 3 * MAX_INPUT_CHANNELS];
    assembly.drain_commands();
    assembly.fill(&mut frame, 3);
    assert_eq!(frame[0], s(0.5));
    assert_eq!(frame[MAX_INPUT_CHANNELS], s(0.0), "starved frame is silence");
    assert_eq!(shared.underruns.load(Ordering::Relaxed), 4, "two frames × two channels");
}

#[test]
fn assembler_detach_returns_the_device_through_the_retire_ring() {
    let (mut cmd_tx, mut retire_rx, mut assembly) = assembler();
    let (_tx, dev) = attached(4, 1, &[]);
    assert!(cmd_tx.push(AssemblerCmd::Attach(dev)).is_ok());
    assembly.drain_commands();
    assert!(cmd_tx.push(AssemblerCmd::Detach { offset: 4 }).is_ok());
    assembly.drain_commands();
    let retired = retire_rx.pop().ok().expect("the device came back");
    assert_eq!(retired.offset, 4);

    let mut frame = vec![s(0.5); MAX_INPUT_CHANNELS];
    assembly.fill(&mut frame, 1);
    assert_eq!(frame[4], s(0.0), "the detached range is silence again");
}

#[test]
fn a_detach_for_an_unknown_offset_is_ignored() {
    let (mut cmd_tx, mut retire_rx, mut assembly) = assembler();
    assert!(cmd_tx.push(AssemblerCmd::Detach { offset: 9 }).is_ok());
    assembly.drain_commands();
    assert!(retire_rx.pop().is_err());
}

/// An interleaved plane whose sample at a frame and channel is `f`'s.
fn plane(frames: usize, f: impl Fn(usize, usize) -> f32) -> Vec<Single> {
    (0..frames * MAX_OUTPUT_CHANNELS)
        .map(|i| s(f(i / MAX_OUTPUT_CHANNELS, i % MAX_OUTPUT_CHANNELS)))
        .collect()
}

fn disassembler() -> (Producer<DisassemblerCmd>, Consumer<Box<AttachedOutput>>, OutputDisassembler) {
    let (cmd_tx, cmd_rx) = RingBuffer::new(DISASSEMBLER_RING_CAPACITY);
    let (retire_tx, retire_rx) = RingBuffer::new(DISASSEMBLER_RING_CAPACITY);
    (cmd_tx, retire_rx, OutputDisassembler::new(RingRx::new(cmd_rx), RingTx::new(retire_tx)))
}

fn attach(
    tx: &mut Producer<DisassemblerCmd>,
    offset: u16,
    channels: u16,
    capacity: usize,
) -> (Consumer<Single>, Arc<OutputShared>) {
    let (producer, consumer) = ring(capacity);
    let shared = Arc::new(OutputShared::default());
    assert!(
        tx.push(DisassemblerCmd::Attach(Box::new(AttachedOutput {
            producer,
            offset,
            channels,
            shared: shared.clone(),
        })))
        .is_ok(),
        "attach ring has room"
    );
    (consumer, shared)
}

#[test]
fn attached_devices_take_their_own_slice_of_the_plane() {
    let (mut cmd_tx, _retire_rx, mut disassembler) = disassembler();
    let (mut left, _) = attach(&mut cmd_tx, 2, 2, 64);
    let (mut right, _) = attach(&mut cmd_tx, 8, 1, 64);

    // The channel's number is in the sample, so that a misrouted slice shows.
    let frame = plane(4, |_, c| c as f32);
    disassembler.drain_commands();
    disassembler.scatter(&frame, 4);

    for _ in 0..4 {
        assert_eq!(left.pop().unwrap(), s(2.0));
        assert_eq!(left.pop().unwrap(), s(3.0));
        assert_eq!(right.pop().unwrap(), s(8.0));
    }
}

#[test]
fn disassembler_a_full_ring_drops_whole_frames_never_partial_ones() {
    let (mut cmd_tx, _retire_rx, mut disassembler) = disassembler();
    // Room for two and a half frames of a 4-channel device.
    let (mut consumer, shared) = attach(&mut cmd_tx, 0, 4, 10);

    let frame = plane(4, |f, _| f as f32);
    disassembler.drain_commands();
    disassembler.scatter(&frame, 4);

    assert_eq!(consumer.slots() % 4, 0, "the ring never holds a partial frame");
    assert_eq!(shared.overruns.load(Ordering::Relaxed), 2);
    for expected in [0.0, 1.0] {
        for _ in 0..4 {
            assert_eq!(consumer.pop().unwrap(), s(expected));
        }
    }
    assert!(consumer.pop().is_err(), "two whole frames, then nothing");
}

#[test]
fn disassembler_detach_returns_the_device_through_the_retire_ring() {
    let (mut cmd_tx, mut retire_rx, mut disassembler) = disassembler();
    let (mut consumer, _) = attach(&mut cmd_tx, 4, 2, 64);
    disassembler.drain_commands();

    cmd_tx.push(DisassemblerCmd::Detach { offset: 4 }).ok();
    disassembler.drain_commands();
    let Ok(retired) = retire_rx.pop() else {
        panic!("the device came back through the retire ring");
    };
    assert_eq!(retired.offset, 4);

    // And nothing is written for it any more.
    let frame = plane(2, |_, c| c as f32);
    disassembler.scatter(&frame, 2);
    assert!(consumer.pop().is_err());
}

#[test]
fn the_monitor_ring_takes_the_first_pair_of_the_plane() {
    let (mut tx, mut rx) = ring(16);
    let frame = plane(2, |f, c| (10 * f + c) as f32);
    push_monitor(&mut tx, &frame, 2);
    let got: Vec<Single> = std::iter::from_fn(|| rx.pop().ok()).collect();
    assert_eq!(got, all(&[0.0, 1.0, 10.0, 11.0]));
}

#[test]
fn a_dry_ring_pours_silence_and_counts_it() {
    let (mut tx, rx) = RingBuffer::new(8);
    tx.push(s(0.25)).unwrap();
    let mut rx = RingRx::new(rx);
    let mut data = vec![s(9.0); 3];
    assert_eq!(pour_out(&mut rx, &mut data), 2);
    assert_eq!(data, all(&[0.25, 0.0, 0.0]));
}

#[test]
fn trimming_keeps_the_newest_samples() {
    let (mut tx, rx) = RingBuffer::new(8);
    for v in [1.0, 2.0, 3.0, 4.0] {
        tx.push(s(v)).unwrap();
    }
    let mut rx = RingRx::new(rx);
    trim(&mut rx, 2);
    assert_eq!(rx.pop(), Some(s(3.0)));
    assert!(!trim_once(&mut rx, 1, 1), "one is not more than one");
    assert!(trim_once(&mut rx, 1, 0));
    assert_eq!(rx.pop(), None);
}

#[test]
fn prefilling_puts_stereo_silence_in_front() {
    let (mut tx, mut rx) = ring(16);
    prefill(&mut tx, 3);
    let got: Vec<Single> = std::iter::from_fn(|| rx.pop().ok()).collect();
    assert_eq!(got, vec![s(0.0); 6]);
}

#[test]
fn a_ring_hands_back_what_it_could_not_take() {
    let (mut tx, mut rx) = ring(1);
    assert_eq!(tx.push(s(1.0)), Ok(()));
    assert_eq!(tx.slots(), 0);
    assert_eq!(tx.push(s(2.0)), Err(s(2.0)));
    assert_eq!(rx.pop(), Ok(s(1.0)));
    assert!(tx.push_range(&all(&[4.0, 5.0, 6.0]), 1, 1));
    assert_eq!(rx.pop(), Ok(s(5.0)));
}
