//! The compiled graph, and the engine that runs it.

use std::sync::atomic::{AtomicU64, Ordering};
use std::sync::Arc;

use rtrb::RingBuffer;
use tributary::console::bus::{BusKind, BusState};
use tributary::console::command::{FaderTarget, MixCommand};
use tributary::console::eq::EqBandKind;
use tributary::console::fx::{FxParams, FxState};
use tributary::console::id::{BusId, FxId, InstrumentId, StripId};
use tributary::console::instrument::{CapturedMidi, InstrumentState};
use tributary::console::meter::MeterKey;
use tributary::console::mix::MixerState;
use tributary::console::output::{OutputJack, OutputPatch, OutputSource};
use tributary::console::reduce::apply;
use tributary::console::strip::{InputAssign, RouteTarget, SendState, SendTap, StripState};
use tributary::engine::call::call_frames;
use tributary::engine::compiled::{
    band_key, bus_key, compile, fx_key, send_key, strip_key, CompileOutput, Level, StripSource,
    TapPoint,
};
use tributary::engine::engine::{engine_pair, EngineCommand, EngineHandle, GraphEngine, Retired};
use tributary::engine::frame::{monitor_feed, write_row, SampleAt, Stereo, TapLevels};
use tributary::engine::instrument::{InstrumentRack, MidiEvent};
use tributary::engine::line::DelayLine;
use tributary::engine::meter::MeterAccum;
use tributary::engine::outbox::Outbox;
use tributary::engine::playback::{
    Gate, LaneSeen, PlaybackSet, PlaybackTrack, Pull, Pulling,
};
use tributary::engine::record::{MidiCapture, RecordSet, RecordTrack};
use tributary::engine::ring::{ring, RingRx, RingTx, Tally};
use tributary::engine::rings::{FlagIx, MeterBlock, MonitorTarget, ParamIx, MAX_METERS};
use tributary::engine::slots::{
    output_buffer, InputSlots, OutputSlots, MAX_OUTPUT_CHANNELS, MONITOR_CHANNELS, MONITOR_OUT,
};
use tributary::single::Single;

const BLOCK: usize = 256;

fn s(value: f32) -> Single {
    Single { bits: value.to_bits() }
}

fn f(sample: Single) -> f32 {
    f32::from_bits(sample.bits)
}

fn slots() -> InputSlots {
    InputSlots::single_default(1)
}

fn state() -> MixerState {
    let mut strip = StripState::new(StripId(0), "Ch 1".into());
    strip.input = Some(InputAssign::device(None, 0));
    strip.fader_db = s(0.0);
    MixerState { strips: vec![strip], ..MixerState::default() }
}

fn compiled(state: &MixerState) -> CompileOutput<()> {
    compile(state, BLOCK, &slots(), &OutputSlots::with_monitor(), ())
}

#[test]
fn a_strip_on_a_second_device_reads_its_slot_offset() {
    let mut slots = InputSlots::default();
    slots.allocate(None, 2).unwrap();
    slots.allocate(Some("dock"), 2).unwrap();
    let mut state = state();
    state.strips[0].input = Some(InputAssign::device(Some("dock".into()), 1));
    let out = compile(&state, BLOCK, &slots, &OutputSlots::with_monitor(), ());
    assert_eq!(out.graph.strips[0].source, StripSource::Input(3));
    assert_eq!(
        out.graph.strips[0].source.sample_at(5, 16, 4, 0),
        SampleAt::Input(5 * 4 + 3),
        "the dock channel reached the strip"
    );
}

#[test]
fn a_patch_to_an_unknown_device_is_silent() {
    let mut state = state();
    state.strips[0].input = Some(InputAssign::device(Some("unplugged interface".into()), 0));
    let out = compiled(&state);
    assert_eq!(out.graph.strips[0].source, StripSource::Silence);
    assert_eq!(out.graph.strips[0].source.sample_at(0, 1, 1, 2), SampleAt::Silence);
}

#[test]
fn compile_maps_every_strip_control() {
    let out = compiled(&state());
    assert!(out.params.gain.contains_key(&strip_key(StripId(0))));
    assert!(out.params.eq_band.contains_key(&band_key(StripId(0), EqBandKind::Peak)));
    assert_eq!(out.meter_keys.len(), 2, "strip meter + master");
    assert_eq!(out.meter_keys[1], MeterKey::Master);
    assert_eq!(out.graph.meter_count(), 2);
    assert_eq!(out.graph.block_size(), BLOCK);
}

#[test]
fn compile_maps_buses_effects_and_sends() {
    let mut state = state();
    state.buses.push(BusState::new(BusId(0), BusKind::Aux, "FX 1".into()));
    state.buses.push(BusState::new(BusId(4), BusKind::Group, "Band".into()));
    state.fx.push(FxState {
        id: FxId(0),
        name: "Echo".into(),
        input: BusId(0),
        params: FxParams::Delay { time_ms: s(100.0), feedback: s(0.0) },
        return_level_db: s(0.0),
    });
    state.strips[0].sends.push(SendState {
        dest: BusId(0),
        level_db: s(-6.0),
        tap: SendTap::PreFader,
    });
    state.strips[0].route_to = RouteTarget::Bus { id: BusId(4) };
    let out = compiled(&state);
    assert!(out.params.bus_fader.contains_key(&bus_key(BusId(4))));
    assert!(out.params.fx_time.contains_key(&fx_key(FxId(0))));
    assert!(!out.params.fx_room.contains_key(&fx_key(FxId(0))), "a delay has no room");
    assert!(out.params.send.contains_key(&send_key(StripId(0), BusId(0))));
    assert_eq!(out.graph.strips[0].route, Some(1), "routed through the group");
    assert_eq!(out.graph.strips[0].sends[0].level.target, Level::Db(s(-6.0)));
    assert!(out.graph.strips[0].sends[0].pre);
    assert_eq!(out.graph.fx[0].input, Some(0));
}

#[test]
fn a_reducer_edit_recompiles_into_a_consistent_graph() {
    let (next, _, _) = apply(
        &state(),
        MixCommand::SetFader {
            target: FaderTarget::Strip { id: StripId(0) },
            level_db: s(-6.0),
        },
    )
    .unwrap();
    let out = compiled(&next);
    assert_eq!(out.graph.strips[0].fader.target, Level::Db(s(-6.0)));
}

#[test]
fn stale_dispatch_indices_are_ignored_not_fatal() {
    let mut out = compiled(&state());
    let before = format!("{:?}", out.graph.strips);
    out.graph.set_param(ParamIx(999), s(1.0));
    out.graph.set_flag(FlagIx(999), true);
    assert_eq!(format!("{:?}", out.graph.strips), before);
}

#[test]
fn a_move_lands_on_its_own_control() {
    let mut out = compiled(&state());
    let fader = out.params.fader[&strip_key(StripId(0))];
    let pfl = out.params.pfl[&strip_key(StripId(0))];
    out.graph.set_param(fader, s(0.5));
    out.graph.set_flag(pfl, true);
    assert_eq!(out.graph.strips[0].fader.target, Level::Linear(s(0.5)));
    assert!(out.graph.strips[0].fader.moved);
    assert!(!out.graph.strips[0].gain.moved, "other knobs untouched");
    assert!(out.graph.strips[0].pfl);
    assert!(out.graph.any_pfl());
}

#[test]
fn pfl_takes_over_the_monitor_feed() {
    let mix = Stereo { l: s(0.1), r: s(0.2) };
    assert_eq!(monitor_feed(false, s(0.9), mix), mix);
    assert_eq!(monitor_feed(true, s(0.9), mix), Stereo { l: s(0.9), r: s(0.9) });
}

#[test]
fn direct_outs_carry_their_taps() {
    let mut plane = OutputSlots::with_monitor();
    plane.allocate(Some("outs"), 8).unwrap();
    let mut state = state();
    let jack = |channel| OutputJack { device: Some("outs".into()), channel };
    state.outputs = vec![
        OutputPatch::new(OutputSource::Strip { id: StripId(0) }, 0, jack(1)),
        OutputPatch::new(OutputSource::Master, 1, jack(3)),
    ];
    state.outputs[1].tap = SendTap::PostFader;
    let out = compile(&state, BLOCK, &slots(), &plane, ());
    assert_eq!(out.graph.outs[0].channel, MONITOR_CHANNELS + 1);
    assert_eq!(out.graph.outs[0].source, TapPoint::Strip(0));
    let tap = |pre: f32, post: f32| TapLevels {
        pre: Stereo { l: s(pre), r: s(pre + 0.5) },
        post: Stereo { l: s(post), r: s(post + 0.5) },
    };
    let mut buffer = output_buffer(2);
    let feed = Stereo { l: s(7.0), r: s(8.0) };
    write_row(&mut buffer, 1, feed, &out.graph.outs, &vec![tap(1.0, 2.0)], &vec![], tap(3.0, 4.0));
    let row = &buffer[MAX_OUTPUT_CHANNELS..];
    assert_eq!(row[0], s(7.0));
    assert_eq!(row[1], s(8.0));
    assert_eq!(row[3], s(1.0), "the strip, before its fader");
    assert_eq!(row[5], s(4.5), "the master's right side, behind its fader");
    assert_eq!(row[2], s(0.0));
    assert!(buffer[..MAX_OUTPUT_CHANNELS].iter().all(|v| v.bits == 0));
}

fn pair() -> (EngineHandle<(), ()>, GraphEngine<(), ()>) {
    engine_pair(compiled(&state()).graph)
}

/// Runs the engine over a plane that the live mix fills with `live`, and mixes
/// the lanes of a take at unity, a mono lane at −3 dB on both sides.
fn process(engine: &mut GraphEngine<(), ()>, plane: &mut Vec<Single>, live: f32) {
    let frames = plane.len() / MAX_OUTPUT_CHANNELS;
    engine.begin_block();
    let mut done = 0;
    while done < frames {
        let chunk = engine.next_chunk(frames, done);
        engine.apply_midi(0);
        for frame in done..done + chunk {
            for channel in MONITOR_OUT {
                plane[frame * MAX_OUTPUT_CHANNELS + usize::from(channel)] = s(live);
            }
        }
        let mut tape = vec![s(0.0); 2 * chunk];
        let pull = match &mut engine.playback {
            Some(set) => {
                let pull = set.begin_chunk(chunk);
                if let Pull::Frames(n) = pull {
                    for frame in 0..n {
                        let (mut l, mut r) = (0.0, 0.0);
                        for track in &mut set.tracks {
                            let (a, b) = track.pop_frame();
                            if track.gate.open {
                                let gain = if track.channels == 2 {
                                    1.0
                                } else {
                                    core::f32::consts::FRAC_1_SQRT_2
                                };
                                l += f(a) * gain;
                                r += f(b) * gain;
                            }
                        }
                        tape[2 * frame] = s(l);
                        tape[2 * frame + 1] = s(r);
                    }
                }
                Some(pull)
            }
            None => None,
        };
        engine.finish_chunk(plane, done, chunk, [s(0.0); 64], 0, &tape, pull);
        done += chunk;
    }
}

#[test]
fn variable_callback_sizes_are_sub_blocked() {
    let (mut handle, mut engine) = pair();
    // 3.5 blocks in one callback.
    let mut output = output_buffer(BLOCK * 7 / 2);
    process(&mut engine, &mut output, 0.5);
    let mut blocks = 0;
    while handle.meter_rx.pop().is_some() {
        blocks += 1;
    }
    assert_eq!(blocks, 4, "3.5 blocks = 3 full chunks + 1 remainder");
}

#[test]
fn swap_retires_the_old_graph_to_the_control_side() {
    let (mut handle, mut engine) = pair();
    let replacement = compiled(&state());
    assert!(handle
        .cmd_tx
        .push(EngineCommand::SwapGraph { graph: replacement.graph })
        .is_ok());
    let mut output = output_buffer(BLOCK);
    process(&mut engine, &mut output, 0.5);
    assert!(handle.retire_rx.pop().is_some(), "old graph came back for dropping");
}

#[test]
fn a_fader_command_reaches_the_graph_it_was_meant_for() {
    let out = compiled(&state());
    let fader = out.params.fader[&strip_key(StripId(0))];
    let (mut handle, mut engine) = engine_pair::<(), ()>(out.graph);
    assert!(handle
        .cmd_tx
        .push(EngineCommand::SetParam { param: fader, target: s(0.5) })
        .is_ok());
    let mut output = output_buffer(BLOCK);
    process(&mut engine, &mut output, 0.0);
    assert_eq!(engine.graph.strips[0].fader.target, Level::Linear(s(0.5)));
}

#[test]
fn a_rack_swap_retires_the_old_rack_to_the_control_side() {
    let (mut handle, mut engine) = pair();
    let mut output = output_buffer(BLOCK);
    for _ in 0..2 {
        assert!(handle
            .cmd_tx
            .push(EngineCommand::SwapRack {
                rack: Box::new(InstrumentRack::new(vec![None], vec![2])),
            })
            .is_ok());
        process(&mut engine, &mut output, 0.0);
        assert!(matches!(handle.retire_rx.pop(), Some(Retired::Rack(_))));
    }
}

fn playback_set(rx: rtrb::Consumer<Single>) -> PlaybackSet<()> {
    PlaybackSet::new(
        vec![PlaybackTrack {
            rx: RingRx::new(rx),
            channels: 1,
            is_master: false,
            solo: false,
            mute: false,
            gate: Gate { open: false, moved: false },
            ramp: (),
        }],
        false,
    )
}

fn tape(samples: usize, value: f32) -> (rtrb::Producer<Single>, rtrb::Consumer<Single>) {
    let (mut tx, rx) = RingBuffer::new(BLOCK * 8);
    for _ in 0..samples {
        tx.push(s(value)).unwrap();
    }
    (tx, rx)
}

#[test]
fn the_tape_return_replaces_the_monitor_pair_and_leaves_direct_outs_alone() {
    let (mut handle, mut engine) = pair();
    let (_tx, rx) = tape(BLOCK * 8, 0.4);
    assert!(handle
        .cmd_tx
        .push(EngineCommand::StartPlayback { set: Box::new(playback_set(rx)) })
        .is_ok());
    let mut output = output_buffer(BLOCK);
    for frame in 0..BLOCK {
        output[frame * MAX_OUTPUT_CHANNELS + usize::from(MONITOR_CHANNELS)] = s(0.8);
    }
    for _ in 0..3 {
        process(&mut engine, &mut output, 0.8);
    }
    let base = 4 * MAX_OUTPUT_CHANNELS;
    let take = 0.4 * core::f32::consts::FRAC_1_SQRT_2;
    assert!(
        (f(output[base + MONITOR_OUT[0] as usize]) - take).abs() < 1e-3,
        "the monitor pair carries the take"
    );
    let direct = f(output[base + usize::from(MONITOR_CHANNELS)]);
    assert!(
        direct.abs() > 1e-3 && (direct - take).abs() > 1e-3,
        "the direct out still carries the LIVE mix, not the tape and not \
         silence: got {direct}"
    );
}

#[test]
fn playback_replaces_the_live_mix_and_advances_position() {
    let (mut handle, mut engine) = pair();
    let (_tx, rx) = tape(BLOCK * 8, 0.4);
    let set = playback_set(rx);
    let shared = set.shared.clone();
    assert!(handle
        .cmd_tx
        .push(EngineCommand::StartPlayback { set: Box::new(set) })
        .is_ok());
    let mut output = output_buffer(BLOCK);
    for _ in 0..3 {
        process(&mut engine, &mut output, 0.8);
    }
    let expected = 0.4 * core::f32::consts::FRAC_1_SQRT_2;
    assert!((f(output[0]) - expected).abs() < 1e-3, "output is the take, not the live mix");
    assert_eq!(shared.position.load(Ordering::Relaxed), BLOCK as u64 * 3);
}

#[test]
fn the_stream_monitor_keeps_the_live_mix_and_fills_the_ring() {
    let (mut handle, mut engine) = pair();
    let (_tx, rx) = tape(BLOCK * 8, 0.4);
    assert!(handle
        .cmd_tx
        .push(EngineCommand::StartPlayback { set: Box::new(playback_set(rx)) })
        .is_ok());
    assert!(handle
        .cmd_tx
        .push(EngineCommand::SetMonitorTarget { target: MonitorTarget::Stream })
        .is_ok());
    let mut output = output_buffer(BLOCK);
    for _ in 0..3 {
        process(&mut engine, &mut output, 0.8);
    }
    assert_eq!(output[0], s(0.8), "the wire still carries the live mix");
    let mut streamed = 0;
    let mut stream_peak = 0.0f32;
    while let Some(sample) = handle.monitor_rx.pop() {
        streamed += 1;
        stream_peak = stream_peak.max(f(sample).abs());
    }
    assert_eq!(streamed, BLOCK * 3 * 2, "every playback frame hit the ring");
    let expected_stream = 0.4 * core::f32::consts::FRAC_1_SQRT_2;
    assert!(
        (stream_peak - expected_stream).abs() < 1e-3,
        "the ring carries the take: {stream_peak}"
    );
}

#[test]
fn a_finished_playback_retires_itself() {
    let (mut handle, mut engine) = pair();
    let (tx, rx) = tape(100, 0.1);
    drop(tx);
    assert!(handle
        .cmd_tx
        .push(EngineCommand::StartPlayback { set: Box::new(playback_set(rx)) })
        .is_ok());
    let mut output = output_buffer(BLOCK);
    process(&mut engine, &mut output, 0.5);
    process(&mut engine, &mut output, 0.5);
    assert!(
        matches!(handle.retire_rx.pop(), Some(Retired::Playback(_))),
        "the drained set came back for dropping"
    );
    assert_eq!(output[0], s(0.5), "the live mix is back after auto-stop");
}

#[test]
fn no_more_than_sixty_four_commands_are_taken_in_a_block() {
    let out = compiled(&state());
    let fader = out.params.fader[&strip_key(StripId(0))];
    let (mut handle, mut engine) = engine_pair::<(), ()>(out.graph);
    for i in 0..65 {
        assert!(handle
            .cmd_tx
            .push(EngineCommand::SetParam { param: fader, target: s(i as f32) })
            .is_ok());
    }
    let mut output = output_buffer(BLOCK);
    process(&mut engine, &mut output, 0.0);
    assert_eq!(engine.graph.strips[0].fader.target, Level::Linear(s(63.0)));
    process(&mut engine, &mut output, 0.0);
    assert_eq!(engine.graph.strips[0].fader.target, Level::Linear(s(64.0)));
}

#[test]
fn a_retiree_waits_where_the_ring_is_full() {
    let (tx, mut rx) = ring::<u32>(1);
    let mut outbox = Outbox::new(tx, 4);
    outbox.retire(1);
    outbox.retire(2);
    assert_eq!(rx.pop(), Some(1));
    assert_eq!(rx.pop(), None, "the second is parked");
    outbox.flush();
    assert_eq!(rx.pop(), Some(2));
}

#[test]
fn the_ends_of_a_ring_meet() {
    let (mut tx, mut rx) = ring::<u32>(3);
    assert_eq!(tx.slots(), 3, "a new ring has room for all that it can hold");
    assert!(tx.push_range(&vec![9, 1, 2, 9], 1, 2));
    assert!(!tx.push_range(&vec![3, 4], 0, 2), "one is left");
    assert_eq!(tx.push(3), Ok(()));
    assert_eq!(tx.push(4), Err(4));
    assert!(!rx.is_empty() && !rx.is_abandoned());
    assert_eq!(rx.slots(), 3);
    assert_eq!([rx.pop(), rx.pop(), rx.pop(), rx.pop()], [Some(1), Some(2), Some(3), None]);
    drop(tx);
    assert!(rx.has_ended());
}

#[test]
fn a_handle_reaches_its_own_engine() {
    let (mut handle, mut engine) = pair();
    let (mut other, _engine) = pair();
    let monitor = |target| EngineCommand::SetMonitorTarget { target };
    assert!(other.cmd_tx.push(monitor(MonitorTarget::Stream)).is_ok());
    engine.begin_block();
    assert!(matches!(engine.monitor, MonitorTarget::Hardware));
    assert!(handle.cmd_tx.push(monitor(MonitorTarget::Stream)).is_ok());
    engine.begin_block();
    assert!(matches!(engine.monitor, MonitorTarget::Stream));
}

#[test]
fn nothing_is_lost_while_the_parking_has_room() {
    let (tx, mut rx) = ring::<u32>(1);
    let mut outbox = Outbox::new(tx, 2);
    for retiree in 1..=4 {
        outbox.retire(retiree);
    }
    let mut back = Vec::new();
    for _ in 0..4 {
        back.extend(rx.pop());
        outbox.flush();
    }
    assert_eq!(back, [1, 3, 2], "the fourth found the ring and the parking full");
}

#[test]
fn the_lanes_of_a_tape_advance_together() {
    let (mut atx, a_rx) = RingBuffer::new(8);
    let (mut btx, b_rx) = RingBuffer::new(8);
    for i in 0..6 {
        atx.push(s(i as f32)).unwrap();
    }
    for i in 0..2 {
        btx.push(s(10.0 + i as f32)).unwrap();
    }
    drop(btx);
    let mut set = PlaybackSet::new(vec![track(a_rx, 2, false), track(b_rx, 1, false)], false);
    assert_eq!(set.begin_chunk(256), Pull::Frames(2), "what both of them hold");
    let mut out = vec![(s(9.0), s(9.0))];
    set.pop_frames(2, &mut out);
    assert_eq!(
        out,
        [(s(0.0), s(1.0)), (s(2.0), s(3.0)), (s(10.0), s(10.0)), (s(11.0), s(11.0))]
    );
    assert_eq!(set.begin_chunk(256), Pull::Frames(1), "the ended lane holds nothing up");
    set.pop_frames(1, &mut out);
    assert_eq!(out, [(s(4.0), s(5.0)), (s(0.0), s(0.0))]);
}

#[test]
fn over_a_call_the_tape_stays_in_the_monitor_pair() {
    let (_handle, mut engine) = pair();
    let frames = BLOCK + 10;
    let mut plane = vec![s(0.25); frames * MAX_OUTPUT_CHANNELS];
    engine.begin_block();
    let first = engine.next_chunk(frames, 0);
    let meters = [s(0.0); 64];
    engine.finish_chunk(
        &mut plane,
        0,
        first,
        meters,
        0,
        &vec![s(0.5); 2 * first],
        Some(Pull::Frames(first)),
    );
    let second = engine.next_chunk(frames, first);
    engine.finish_chunk(&mut plane, first, second, meters, 0, &vec![s(0.5); 2 * second], None);
    assert_eq!((first, second, engine.frame), (BLOCK, 10, 2));
    for (at, sample) in plane.iter().enumerate() {
        let tape = at / MAX_OUTPUT_CHANNELS < first
            && at % MAX_OUTPUT_CHANNELS < usize::from(MONITOR_CHANNELS);
        assert_eq!(*sample, s(if tape { 0.5 } else { 0.25 }));
    }
}

#[test]
fn a_call_takes_as_many_frames_in_as_it_puts_out() {
    assert_eq!(call_frames(3 * MAX_OUTPUT_CHANNELS, 6, 2), Some(3));
    assert_eq!(call_frames(0, 0, 2), Some(0));
    assert_eq!(call_frames(3 * MAX_OUTPUT_CHANNELS + 1, 6, 2), None);
    assert_eq!(call_frames(3 * MAX_OUTPUT_CHANNELS, 5, 2), None);
    assert_eq!(call_frames(3 * MAX_OUTPUT_CHANNELS, 6, usize::MAX), None);
}

#[test]
fn a_tap_without_a_track_is_noticed() {
    let (tx, _rx) = RingBuffer::new(2);
    let mut set = RecordSet {
        strip_tracks: vec![None, Some(0)],
        master_track: None,
        tracks: vec![RecordTrack::new(
            RingTx::new(tx),
            Tally::new(Arc::new(AtomicU64::new(0))),
        )],
        midi: None,
    };
    assert!(set.is_wired());
    set.master_track = Some(1);
    assert!(!set.is_wired());
    set.master_track = Some(0);
    set.strip_tracks[0] = Some(1);
    assert!(!set.is_wired());
}

#[test]
fn recording_counts_what_a_full_ring_loses() {
    let (tx, mut rx) = RingBuffer::new(2);
    let lost = Arc::new(AtomicU64::new(0));
    let mut track = RecordTrack::new(RingTx::new(tx), Tally::new(lost.clone()));
    for v in [0.1, 0.2, 0.3] {
        track.push(s(v));
    }
    assert_eq!(rx.pop(), Ok(s(0.1)));
    assert_eq!(rx.pop(), Ok(s(0.2)));
    assert!(rx.pop().is_err());
    assert_eq!(lost.load(Ordering::Relaxed), 1);
}

#[test]
fn a_take_records_strips_and_the_mix_on_their_own_tracks() {
    let track = || {
        let (tx, rx) = RingBuffer::new(4);
        (RecordTrack::new(RingTx::new(tx), Tally::new(Arc::new(AtomicU64::new(0)))), rx)
    };
    let ((strip, mut strip_rx), (master, mut master_rx)) = (track(), track());
    let mut set = RecordSet {
        strip_tracks: vec![None, Some(1)],
        master_track: Some(0),
        tracks: vec![master, strip],
        midi: None,
    };
    for strip in [0, 1, 9] {
        set.record_strip(strip, s(strip as f32));
    }
    set.record_mix(Stereo { l: s(0.25), r: s(0.5) });
    assert_eq!(strip_rx.pop(), Ok(s(1.0)));
    assert!(strip_rx.pop().is_err(), "only the armed strip");
    assert_eq!(master_rx.pop(), Ok(s(0.25)));
    assert_eq!(master_rx.pop(), Ok(s(0.5)));
    set.master_track = None;
    set.record_mix(Stereo { l: s(0.25), r: s(0.5) });
    assert!(master_rx.pop().is_err());
}

#[test]
fn a_take_counts_time_from_its_own_start() {
    let (tx, mut rx) = RingBuffer::<CapturedMidi>::new(4);
    let mut capture = MidiCapture::new(RingTx::new(tx), Tally::new(Arc::new(AtomicU64::new(0))));
    capture.start_at(1_000);
    assert_eq!(capture.elapsed(1_480), 480);
    assert_eq!(capture.elapsed(10), 0);
    let event = CapturedMidi { sample: 480, instrument: 0, status: 0x90, data1: 60, data2: 100 };
    capture.push(event);
    assert_eq!(rx.pop(), Ok(event));
}

#[test]
fn peak_tracks_the_largest_magnitude_either_sign() {
    let mut meter = MeterAccum::new(s(0.988));
    for v in [0.1, -0.7, 0.3] {
        meter.accumulate(s(v));
    }
    let (peak, clipped) = meter.take();
    assert_eq!(peak, s(0.7));
    assert!(!clipped);
}

#[test]
fn full_scale_counts_as_clip() {
    let mut meter = MeterAccum::new(s(0.988));
    meter.accumulate(s(-1.0));
    assert!(meter.take().1);
}

#[test]
fn take_resets_for_the_next_block() {
    let mut meter = MeterAccum::new(s(0.988));
    meter.accumulate(s(1.0));
    meter.take();
    assert_eq!(meter.take(), (s(0.0), false));
}

#[test]
fn an_impulse_comes_back_after_the_delay() {
    let mut line = DelayLine::new(5);
    line.put_in(s(1.0));
    for _ in 0..2 {
        line.put_in(s(0.0));
    }
    assert_eq!(line.tap(3), s(1.0));
    assert_eq!(line.tap(2), s(0.0));
    assert_eq!(line.tap(99), line.tap(4), "no further back than the line goes");
    line.put_in(s(0.0));
    line.put_in(s(0.0));
    assert_eq!(line.oldest(), s(1.0));
    assert_eq!(line.tap(0), s(1.0));
    line.put_in(s(0.5));
    assert_eq!(line.oldest(), s(0.0));
    assert_eq!(line.tap(1), s(0.5));
}

#[test]
fn a_meter_block_marks_its_clipped_points() {
    let mut block = MeterBlock::empty(7);
    block.mark(3);
    assert!(block.clipped(3));
    assert!(!block.clipped(2));
    assert_eq!(MAX_METERS, 64);
}

fn track(rx: rtrb::Consumer<Single>, channels: u16, is_master: bool) -> PlaybackTrack<()> {
    PlaybackTrack {
        rx: RingRx::new(rx),
        channels,
        is_master,
        solo: false,
        mute: false,
        gate: Gate { open: false, moved: false },
        ramp: (),
    }
}

fn filled(
    frames: usize,
    channels: u16,
    value: f32,
) -> (rtrb::Producer<Single>, rtrb::Consumer<Single>) {
    let (mut tx, rx) = RingBuffer::new(frames * channels as usize);
    for _ in 0..frames * channels as usize {
        tx.push(s(value)).unwrap();
    }
    (tx, rx)
}

#[test]
fn the_program_rule_prefers_master_then_solo_then_unity_sum() {
    let lane = |is_master, solo, mute| {
        let mut lane = track(RingBuffer::new(1).1, 1, is_master);
        lane.solo = solo;
        lane.mute = mute;
        lane
    };
    let audible = tributary::engine::playback::lane_audible::<()>;
    // No solo, master present: only the master lane sounds.
    assert!(audible(true, false, &lane(true, false, false)));
    assert!(!audible(true, false, &lane(false, false, false)));
    // Any solo: exactly the soloed, unmuted lanes sound.
    assert!(audible(true, true, &lane(false, true, false)));
    assert!(!audible(true, true, &lane(true, false, false)));
    assert!(!audible(true, true, &lane(false, true, true)));
    // No master track: unity sum of unmuted lanes.
    assert!(audible(false, false, &lane(false, false, false)));
    assert!(!audible(false, false, &lane(false, false, true)));
    // Mute always removes the lane.
    assert!(!audible(true, false, &lane(true, false, true)));
}

#[test]
fn with_a_master_track_only_the_master_reaches_the_output() {
    let (_mtx, master_rx) = filled(2048, 2, 0.5);
    let (_stx, strip_rx) = filled(2048, 1, 0.9);
    let mut set = PlaybackSet::new(
        vec![track(master_rx, 2, true), track(strip_rx, 1, false)],
        true,
    );
    assert!(set.tracks[0].gate.open);
    assert!(!set.tracks[1].gate.open);
    assert_eq!(set.begin_chunk(256), Pull::Frames(256));
    assert_eq!(set.tracks[0].pop_frame(), (s(0.5), s(0.5)), "master verbatim");
}

#[test]
fn soloing_a_lane_swaps_the_program_off_the_master() {
    let (_mtx, master_rx) = filled(4096, 2, 0.5);
    let (_stx, strip_rx) = filled(4096, 1, 0.8);
    let mut set = PlaybackSet::new(
        vec![track(master_rx, 2, true), track(strip_rx, 1, false)],
        true,
    );
    set.set_solo(1, true);
    assert!(!set.tracks[0].gate.open && set.tracks[0].gate.moved);
    assert!(set.tracks[1].gate.open);
    assert_eq!(set.tracks[1].pop_frame(), (s(0.8), s(0.8)), "same on both sides");
}

#[test]
fn without_a_master_track_unmuted_lanes_sum_at_unity() {
    let (_atx, a_rx) = filled(2048, 1, 0.2);
    let (_btx, b_rx) = filled(2048, 1, 0.3);
    let mut set = PlaybackSet::new(vec![track(a_rx, 1, false), track(b_rx, 1, false)], false);
    assert!(set.tracks[0].gate.open && set.tracks[1].gate.open);
    set.set_mute(1, true);
    assert!(set.tracks[0].gate.open);
    assert!(!set.tracks[1].gate.open, "muted lane contributes nothing");
}

#[test]
fn an_underrun_stalls_without_desyncing_the_lanes() {
    let (mut tx, rx) = RingBuffer::new(1024);
    for _ in 0..100 {
        tx.push(s(0.5)).unwrap();
    }
    let mut set = PlaybackSet::new(vec![track(rx, 1, false)], false);
    assert_eq!(set.begin_chunk(256), Pull::Frames(100), "only what the ring held");
    assert!(!set.shared.finished.load(Ordering::Relaxed));
}

#[test]
fn the_slowest_lane_that_still_runs_sets_the_pace() {
    let seen = |ended, slots| LaneSeen { ended, slots };
    let pulling = Pulling::start(256).see(seen(true, 0), 2).see(seen(false, 201), 2);
    assert_eq!(pulling.verdict(), Pull::Frames(100), "an ended lane holds nothing up");
    assert_eq!(Pulling::start(256).see(seen(true, 0), 1).verdict(), Pull::Finished);
    assert_eq!(Pulling::start(256).see(seen(false, 999), 1).verdict(), Pull::Frames(256));
}

#[test]
fn finished_fires_only_when_every_ring_is_abandoned_and_empty() {
    let (tx, rx) = filled(64, 1, 0.1);
    let mut set = PlaybackSet::new(vec![track(rx, 1, false)], false);
    assert_eq!(set.begin_chunk(64), Pull::Frames(64));
    for _ in 0..64 {
        set.tracks[0].pop_frame();
    }
    set.begin_chunk(64);
    assert!(
        !set.shared.finished.load(Ordering::Relaxed),
        "empty but not abandoned = feeder still alive"
    );
    drop(tx);
    assert_eq!(set.begin_chunk(64), Pull::Finished);
    assert!(set.shared.finished.load(Ordering::Relaxed));
}

#[test]
fn a_stale_gate_index_is_ignored() {
    let (_tx, rx) = filled(64, 1, 0.1);
    let mut set = PlaybackSet::new(vec![track(rx, 1, false)], false);
    set.set_solo(7, true);
    set.set_mute(7, true);
    assert!(!set.tracks[0].solo && !set.tracks[0].mute);
}

#[test]
fn a_strip_reads_its_instrument_from_the_rack() {
    let mut state = state();
    state.instruments.push(InstrumentState::new(InstrumentId(0), "Rhodes".into()));
    state.instruments.push(InstrumentState::new(InstrumentId(5), "Bass".into()));
    state.strips[0].input = Some(InputAssign::instrument(InstrumentId(5), 1));
    let out = compiled(&state);
    assert_eq!(out.graph.strips[0].source, StripSource::Instrument(3));
    let (mut handle, engine) = engine_pair::<(), ()>(out.graph);
    let event = MidiEvent { port: 0, channel: 0, status: 0x90, data1: 60, data2: 100 };
    assert!(handle.midi_tx.push(event).is_ok());
    assert!(engine.rack.is_empty());
}
