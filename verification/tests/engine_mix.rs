//! The steps of the mix, worked off in plain floats: where every signal ends up.

use std::sync::Arc;

use biquad::{Biquad, Coefficients, DirectForm2Transposed, Type};
use tributary::console::bus::{BusKind, BusState};
use tributary::console::eq::{EqBand, EqBandKind};
use tributary::console::fx::{FxParams, FxState};
use tributary::console::id::{BusId, FxId, InstrumentId, StripId};
use tributary::console::instrument::InstrumentState;
use tributary::console::mix::MixerState;
use tributary::console::strip::{InputAssign, RouteTarget, SendState, SendTap, StripState};
use tributary::engine::compiled::{
    compile, strip_key, CompileOutput, CompiledGraph, EqTarget, FxKnobs, Level,
};
use tributary::engine::engine::{engine_pair, EngineCommand, GraphEngine};
use tributary::engine::frame::{monitor_feed, write_row, SampleAt, Stereo, TapLevels};
use tributary::engine::instrument::{
    sub_block, Instrument, InstrumentRack, KeyFilter, MidiBinding, MidiEvent, VoiceSpec,
};
use tributary::engine::line::DelayLine;
use tributary::engine::meter::MeterAccum;
use tributary::engine::mixdown::{Signal, Step, Sum, Way};
use tributary::engine::slots::{output_buffer, InputSlots, OutputSlots, MAX_OUTPUT_CHANNELS};
use tributary::engine::soundfont::sine_soundfont;
use tributary::engine::voices::lay_voice;
use tributary::single::Single;

const SR: u32 = 48_000;
const BLOCK: usize = 256;

fn s(value: f32) -> Single {
    Single { bits: value.to_bits() }
}

fn f(sample: Single) -> f32 {
    f32::from_bits(sample.bits)
}

fn linear(db: f32) -> f32 {
    if db <= -90.0 {
        0.0
    } else {
        10f32.powf(db / 20.0)
    }
}

fn gain(level: Level) -> f32 {
    match level {
        Level::Db(db) => linear(f(db)),
        Level::Linear(value) => f(value),
    }
}

fn slots() -> InputSlots {
    InputSlots::single_default(1)
}

fn state_with_input() -> MixerState {
    let mut strip = StripState::new(StripId(0), "Ch 1".into());
    strip.input = Some(InputAssign::device(None, 0));
    strip.fader_db = s(0.0);
    MixerState { strips: vec![strip], ..MixerState::default() }
}

fn state_with_fx() -> MixerState {
    let mut state = state_with_input();
    state.buses.push(BusState::new(BusId(0), BusKind::Aux, "FX 1".into()));
    state.fx.push(FxState {
        id: FxId(0),
        name: "Echo".into(),
        input: BusId(0),
        params: FxParams::Delay { time_ms: s(100.0), feedback: s(0.0) },
        return_level_db: s(0.0),
    });
    state
}

fn compiled(state: &MixerState) -> CompileOutput<()> {
    compile(state, BLOCK, &slots(), &OutputSlots::with_monitor(), ())
}

fn sine(amplitude: f32) -> Vec<f32> {
    (0..BLOCK)
        .map(|i| amplitude * (i as f32 / SR as f32 * 440.0 * std::f32::consts::TAU).sin())
        .collect()
}

fn filter(target: EqTarget) -> DirectForm2Transposed<f32> {
    let EqTarget::Band(EqBand { kind, freq_hz, gain_db, q, .. }) = target else {
        panic!("a compiled band")
    };
    let kind = match kind {
        EqBandKind::LowShelf => Type::LowShelf(f(gain_db)),
        EqBandKind::Peak => Type::PeakingEQ(f(gain_db)),
        EqBandKind::HighShelf => Type::HighShelf(f(gain_db)),
    };
    let at = 2.0 * f(freq_hz) / SR as f32;
    let coefficients = Coefficients::<f32>::from_normalized_params(kind, at, f(q)).unwrap();
    DirectForm2Transposed::<f32>::new(coefficients)
}

/// Floats beside a graph. Every control is where it points, without a ramp.
struct Desk {
    filters: Vec<[DirectForm2Transposed<f32>; 3]>,
    lines: Vec<(DelayLine, usize)>,
    taps: Vec<TapLevels>,
    bus_sums: Vec<(f32, f32)>,
    bus_taps: Vec<TapLevels>,
    wet: Vec<f32>,
    meters: Vec<MeterAccum>,
    master: MeterAccum,
}

impl Desk {
    fn new<D>(graph: &CompiledGraph<D>) -> Desk {
        let zero = Stereo { l: s(0.0), r: s(0.0) };
        let silent = TapLevels { pre: zero, post: zero };
        Desk {
            filters: graph
                .strips
                .iter()
                .map(|n| [filter(n.low.target), filter(n.mid.target), filter(n.high.target)])
                .collect(),
            lines: graph
                .fx
                .iter()
                .map(|unit| {
                    let FxKnobs::Delay { time, .. } = unit.knobs else { panic!("a delay") };
                    let delay = (gain(time.target) / 1000.0 * SR as f32) as usize;
                    (DelayLine::new(delay + 1), delay)
                })
                .collect(),
            taps: vec![silent; graph.strips.len()],
            bus_sums: vec![(0.0, 0.0); graph.buses.len()],
            bus_taps: vec![silent; graph.buses.len()],
            wet: vec![0.0; graph.fx.len()],
            meters: graph.strips.iter().map(|_| MeterAccum::new(s(1.0))).collect(),
            master: MeterAccum::new(s(1.0)),
        }
    }

    fn heard(&self, from: Signal) -> (f32, f32) {
        let sides = |at: Stereo| (f(at.l), f(at.r));
        match from {
            Signal::StripPre(i) => sides(self.taps[i].pre),
            Signal::StripPost(i) => sides(self.taps[i].post),
            Signal::BusSum(b) => self.bus_sums[b],
            Signal::BusPost(b) => sides(self.bus_taps[b].post),
            Signal::Return(u) => (self.wet[u], self.wet[u]),
        }
    }

    /// One frame, and what its mix and its listening sum come to.
    fn frame<D>(&mut self, graph: &CompiledGraph<D>, steps: &[Step], at: &Read) -> (f32, f32, f32) {
        let (mut mix_l, mut mix_r, mut listen) = (0.0, 0.0, 0.0);
        self.bus_sums.fill((0.0, 0.0));
        for step in steps {
            match *step {
                Step::Strip(i) => {
                    let node = &graph.strips[i];
                    let sample = node.source.sample_at(at.frame, at.frames, 1, at.rack_channels);
                    let dry = match sample {
                        SampleAt::Silence => 0.0,
                        SampleAt::Input(at_sample) => at.input[at_sample],
                        SampleAt::Instrument(at_sample) => f(at.rack[at_sample]),
                    };
                    let mut x = dry * gain(node.gain.target);
                    if node.eq_enabled {
                        for band in &mut self.filters[i] {
                            x = band.run(x);
                        }
                    }
                    self.meters[i].accumulate(s(x));
                    let level = x * gain(node.mute.target) * gain(node.fader.target);
                    self.taps[i] = TapLevels {
                        pre: Stereo { l: s(x), r: s(x) },
                        post: Stereo { l: s(level), r: s(level) },
                    };
                }
                Step::Bus(b) => {
                    let node = &graph.buses[b];
                    let level = gain(node.fader.target) * gain(node.mute.target);
                    let (l, r) = self.bus_sums[b];
                    self.bus_taps[b] = TapLevels {
                        pre: Stereo { l: s(l), r: s(r) },
                        post: Stereo { l: s(l * level), r: s(r * level) },
                    };
                }
                Step::Effect(u, from) => {
                    let (dry, _) = self.heard(from);
                    let (line, delay) = &mut self.lines[u];
                    let wet = f(line.tap(*delay));
                    line.put_in(s(dry));
                    self.wet[u] = wet * gain(graph.fx[u].return_level.target);
                }
                Step::Add { from, way, into } => {
                    let (l, r) = self.heard(from);
                    let (l, r) = match (way, from) {
                        (Way::Fold, _) => ((l + r) * 0.5, 0.0),
                        (Way::Send(k), Signal::StripPre(i) | Signal::StripPost(i)) => {
                            (l * gain(graph.strips[i].sends[k].level.target), 0.0)
                        }
                        (Way::Pan, Signal::StripPost(i)) => {
                            let pan = gain(graph.strips[i].pan.target);
                            let angle = (pan + 1.0) * core::f32::consts::FRAC_PI_4;
                            (l * angle.cos(), l * angle.sin())
                        }
                        _ => (l, r),
                    };
                    match into {
                        Sum::Mix => {
                            mix_l += l;
                            mix_r += r;
                        }
                        Sum::Listen => listen += l,
                        Sum::Bus(b) => {
                            self.bus_sums[b].0 += l;
                            self.bus_sums[b].1 += r;
                        }
                    }
                }
            }
        }
        (mix_l, mix_r, listen)
    }

    /// A chunk of the plane.
    fn chunk<D>(
        &mut self,
        graph: &CompiledGraph<D>,
        read: Read,
        plane: &mut Vec<Single>,
        done: usize,
    ) {
        let mut steps = Vec::new();
        graph.plan_mix(&mut steps);
        for frame in 0..read.frames {
            let (l, r, listen) = self.frame(graph, &steps, &Read { frame, ..read });
            let fader = gain(graph.master_fader.target);
            let mix = Stereo { l: s(l * fader), r: s(r * fader) };
            self.master.accumulate(if f(mix.l).abs() > f(mix.r).abs() { mix.l } else { mix.r });
            let feed = monitor_feed(graph.any_pfl(), s(listen), mix);
            let master = TapLevels { pre: Stereo { l: s(l), r: s(r) }, post: mix };
            write_row(plane, done + frame, feed, &graph.outs, &self.taps, &self.bus_taps, master);
        }
    }
}

/// What a frame reads.
#[derive(Clone, Copy)]
struct Read<'a> {
    input: &'a [f32],
    rack: &'a [Single],
    rack_channels: usize,
    frame: usize,
    frames: usize,
}

/// Runs blocks of an input; what the last one puts out, as pairs, and its peaks.
fn run<D>(
    graph: &CompiledGraph<D>,
    desk: &mut Desk,
    input: &[f32],
    blocks: usize,
) -> (Vec<(f32, f32)>, Vec<f32>) {
    let mut plane = output_buffer(input.len());
    let mut peaks = Vec::new();
    for _ in 0..blocks {
        let read = Read { input, rack: &[], rack_channels: 0, frame: 0, frames: input.len() };
        desk.chunk(graph, read, &mut plane, 0);
        peaks = desk.meters.iter_mut().map(|meter| f(meter.take().0)).collect();
        peaks.push(f(desk.master.take().0));
    }
    (monitor(&plane), peaks)
}

fn monitor(plane: &[Single]) -> Vec<(f32, f32)> {
    plane.chunks_exact(MAX_OUTPUT_CHANNELS).map(|row| (f(row[0]), f(row[1]))).collect()
}

fn left_peak(output: &[(f32, f32)]) -> f32 {
    output.iter().map(|frame| frame.0.abs()).fold(0.0, f32::max)
}

fn right_peak(output: &[(f32, f32)]) -> f32 {
    output.iter().map(|frame| frame.1.abs()).fold(0.0, f32::max)
}

#[test]
fn a_unity_strip_reaches_the_master_at_pan_law_level() {
    let out = compiled(&state_with_input());
    let mut desk = Desk::new(&out.graph);
    let (output, peaks) = run(&out.graph, &mut desk, &sine(0.5), 3);
    assert!((left_peak(&output) - 0.5 * core::f32::consts::FRAC_1_SQRT_2).abs() < 0.01);
    assert!((peaks[0] - 0.5).abs() < 0.01, "strip meter reads pre-fader");
}

#[test]
fn hard_left_pan_leaves_the_right_bus_silent() {
    let mut state = state_with_input();
    state.strips[0].pan = s(-1.0);
    let out = compiled(&state);
    let mut desk = Desk::new(&out.graph);
    let (output, _) = run(&out.graph, &mut desk, &sine(0.5), 3);
    assert!(right_peak(&output) < 1e-3);
}

#[test]
fn eq_disabled_bypasses_the_filters() {
    let mut state = state_with_input();
    state.strips[0].eq.enabled = true;
    state.strips[0].eq.high.gain_db = s(-15.0);
    state.strips[0].eq.high.freq_hz = s(220.0);
    let cut = compiled(&state);
    let (_, peaks_cut) = run(&cut.graph, &mut Desk::new(&cut.graph), &sine(0.5), 4);
    state.strips[0].eq.enabled = false;
    let flat = compiled(&state);
    let (_, peaks_flat) = run(&flat.graph, &mut Desk::new(&flat.graph), &sine(0.5), 4);
    assert!(peaks_cut[0] < peaks_flat[0] * 0.5);
}

#[test]
fn mute_command_silences_after_the_ramp() {
    let mut out = compiled(&state_with_input());
    let mute_ix = out.params.mute[&strip_key(StripId(0))];
    out.graph.set_param(mute_ix, s(0.0));
    let mut desk = Desk::new(&out.graph);
    let (output, _) = run(&out.graph, &mut desk, &sine(0.8), 4);
    assert!(output.iter().all(|(l, r)| l.abs() < 1e-3 && r.abs() < 1e-3));
}

#[test]
fn pfl_replaces_the_output_but_the_meters_keep_showing_the_mix() {
    let mut state = state_with_input();
    state.strips[0].fader_db = s(-90.0);
    state.strips[0].pfl = true;
    let out = compiled(&state);
    let mut desk = Desk::new(&out.graph);
    let (output, peaks) = run(&out.graph, &mut desk, &sine(0.5), 3);
    let out_peak = left_peak(&output).max(right_peak(&output));
    assert!((out_peak - 0.5).abs() < 0.01, "PFL is pre-fader listen");
    let master_ix = out.graph.meter_count() - 1;
    assert!(peaks[master_ix] < 1e-3, "mix meter stays down");
}

#[test]
fn a_group_routed_strip_reaches_the_master_through_the_group_fader() {
    let mut state = state_with_input();
    state.buses.push(BusState::new(BusId(0), BusKind::Group, "Band".into()));
    state.strips[0].route_to = RouteTarget::Bus { id: BusId(0) };
    state.buses[0].fader_db = s(-6.0);
    let out = compiled(&state);
    let mut desk = Desk::new(&out.graph);
    let (output, _) = run(&out.graph, &mut desk, &sine(0.5), 3);
    let expected = 0.5 * core::f32::consts::FRAC_1_SQRT_2 * linear(-6.0);
    assert!((left_peak(&output) - expected).abs() < 0.01);
}

/// An impulse, then silence: the loudest that comes back.
fn echo_of(state: &MixerState) -> f32 {
    let out = compiled(state);
    let mut desk = Desk::new(&out.graph);
    let mut impulse = vec![0.0f32; BLOCK];
    impulse[0] = 0.8;
    run(&out.graph, &mut desk, &impulse, 1);
    let silence = vec![0.0f32; BLOCK];
    let mut echo_peak = 0.0f32;
    for _ in 0..20 {
        let (output, _) = run(&out.graph, &mut desk, &silence, 1);
        echo_peak = echo_peak.max(left_peak(&output));
    }
    echo_peak
}

#[test]
fn a_post_fader_send_feeds_the_delay_and_returns_to_the_master() {
    let mut state = state_with_fx();
    state.strips[0].sends.push(SendState {
        dest: BusId(0),
        level_db: s(0.0),
        tap: SendTap::PostFader,
    });
    let echo_peak = echo_of(&state);
    assert!(echo_peak > 0.3, "the echo came back ({echo_peak})");
}

#[test]
fn a_pre_fader_send_survives_the_fader_being_down() {
    let mut state = state_with_fx();
    state.strips[0].fader_db = s(-90.0);
    state.strips[0].sends.push(SendState {
        dest: BusId(0),
        level_db: s(0.0),
        tap: SendTap::PreFader,
    });
    assert!(echo_of(&state) > 0.3, "pre-fader send still fed the FX");
}

#[test]
fn a_post_fader_send_goes_down_with_the_fader() {
    let mut state = state_with_fx();
    state.strips[0].fader_db = s(-90.0);
    state.strips[0].sends.push(SendState {
        dest: BusId(0),
        level_db: s(0.0),
        tap: SendTap::PostFader,
    });
    assert_eq!(echo_of(&state), 0.0);
}

#[test]
fn the_steps_of_a_desk_come_in_order() {
    let mut state = state_with_fx();
    state.buses.push(BusState::new(BusId(7), BusKind::Group, "Band".into()));
    state.buses[1].pfl = true;
    state.strips[0].pfl = true;
    state.strips[0].route_to = RouteTarget::Bus { id: BusId(7) };
    let out = compiled(&state);
    let mut steps = vec![Step::Strip(9)];
    out.graph.plan_mix(&mut steps);
    let add = |from, way, into| Step::Add { from, way, into };
    assert_eq!(
        steps,
        vec![
            Step::Strip(0),
            add(Signal::StripPre(0), Way::Solo, Sum::Listen),
            add(Signal::StripPost(0), Way::Send(0), Sum::Bus(0)),
            add(Signal::StripPost(0), Way::Pan, Sum::Bus(1)),
            Step::Bus(0),
            add(Signal::BusSum(1), Way::Fold, Sum::Listen),
            Step::Bus(1),
            add(Signal::BusPost(1), Way::Sides, Sum::Mix),
            Step::Effect(0, Signal::BusPost(0)),
            add(Signal::Return(0), Way::Center, Sum::Mix),
        ]
    );
}

#[test]
fn listening_leaves_the_rest_of_the_steps_alone() {
    let mut state = state_with_fx();
    state.buses.push(BusState::new(BusId(7), BusKind::Group, "Band".into()));
    let (mut quiet, mut steps) = (Vec::new(), Vec::new());
    compiled(&state).graph.plan_mix(&mut quiet);
    state.strips[0].pfl = true;
    state.buses[0].pfl = true;
    state.buses[1].pfl = true;
    compiled(&state).graph.plan_mix(&mut steps);
    assert_eq!(steps.len(), quiet.len() + 3);
    steps.retain(|step| !matches!(step, Step::Add { into: Sum::Listen, .. }));
    assert_eq!(steps, quiet);
}

/// One callback of an engine, its rack rendered in front of the mix.
fn process(engine: &mut GraphEngine<(), ()>, input: &[f32], plane: &mut Vec<Single>) {
    let frames = plane.len() / MAX_OUTPUT_CHANNELS;
    engine.begin_block();
    let mut desk = Desk::new(&engine.graph);
    let mut done = 0;
    while done < frames {
        let chunk = engine.next_chunk(frames, done);
        let channels = engine.rack.channels();
        let mut rack = vec![s(0.0); chunk * channels];
        let mut rendered = 0;
        while rendered < chunk {
            let sub = sub_block(chunk, rendered);
            engine.apply_midi(rendered as u64);
            for slot in 0..engine.rack.instruments.len() {
                let place = engine.rack.place_of(slot);
                let (mut left, mut right) = (vec![0.0f32; sub], vec![0.0f32; sub]);
                if let Some(instrument) = &mut engine.rack.instruments[slot] {
                    instrument.voice.synth.render(&mut left, &mut right);
                }
                let heard =
                    left.iter().zip(&right).map(|(l, r)| Stereo { l: s(*l), r: s(*r) }).collect();
                lay_voice(&mut rack, place, rendered, &heard);
            }
            rendered += sub;
        }
        let read = Read {
            input: &input[done..done + chunk],
            rack: &rack,
            rack_channels: channels,
            frame: 0,
            frames: chunk,
        };
        desk.chunk(&engine.graph, read, plane, done);
        let tape = vec![s(0.0); 2 * chunk];
        engine.finish_chunk(plane, done, chunk, [s(0.0); 64], 0, &tape, None);
        done += chunk;
    }
}

#[test]
fn a_fader_command_changes_the_level_after_the_ramp() {
    let out = compiled(&state_with_input());
    let fader_ix = out.params.fader[&strip_key(StripId(0))];
    let (mut handle, mut engine) = engine_pair::<(), ()>(out.graph);
    assert!(handle
        .cmd_tx
        .push(EngineCommand::SetParam { param: fader_ix, target: s(0.5) })
        .is_ok());
    let mut output = output_buffer(BLOCK);
    for _ in 0..3 {
        process(&mut engine, &sine(0.8), &mut output);
    }
    let peak = left_peak(&monitor(&output));
    let expected = 0.8 * 0.5 * core::f32::consts::FRAC_1_SQRT_2;
    assert!((peak - expected).abs() < 0.01, "peak {peak} vs {expected}");
}

fn instrument_state() -> MixerState {
    let mut strip = StripState::new(StripId(0), "Keys".into());
    strip.input = Some(InputAssign::instrument(InstrumentId(0), 0));
    strip.fader_db = s(0.0);
    MixerState {
        strips: vec![strip],
        instruments: vec![InstrumentState::new(InstrumentId(0), "Rhodes".into())],
        ..MixerState::default()
    }
}

fn loaded_rack() -> Box<InstrumentRack> {
    let mut bytes = std::io::Cursor::new(sine_soundfont());
    let font = Arc::new(rustysynth::SoundFont::new(&mut bytes).unwrap());
    let spec = VoiceSpec {
        sample_rate: SR,
        polyphony: 32,
        effects: false,
        bank: 0,
        program: 0,
        binding: MidiBinding { port: Some(0), channel: None },
        keys: KeyFilter::all(),
    };
    let voice = Instrument::new(&font, &spec).ok().unwrap();
    assert_eq!(voice.voice.synth.get_sample_rate(), 48_000);
    assert_eq!(voice.voice.synth.get_block_size(), 64);
    assert_eq!(voice.voice.synth.get_maximum_polyphony(), 32);
    assert!(!voice.voice.synth.get_enable_reverb_and_chorus());
    Box::new(InstrumentRack::new(vec![Some(voice)], vec![2]))
}

fn note_on(key: u8) -> MidiEvent {
    MidiEvent { port: 0, channel: 0, status: 0x90, data1: key, data2: 100 }
}

/// What comes out of four blocks behind a note on a loaded rack.
fn played(state: &MixerState) -> f32 {
    let (mut handle, mut engine) = engine_pair::<(), ()>(compiled(state).graph);
    assert!(handle.cmd_tx.push(EngineCommand::SwapRack { rack: loaded_rack() }).is_ok());
    assert!(handle.midi_tx.push(note_on(78)).is_ok());
    let input = vec![0.0; BLOCK];
    let mut output = output_buffer(BLOCK);
    let mut peak = 0.0f32;
    for _ in 0..4 {
        process(&mut engine, &input, &mut output);
        peak = peak.max(output.iter().map(|v| f(*v).abs()).fold(0.0, f32::max));
    }
    peak
}

#[test]
fn a_midi_note_reaches_the_master_mix_through_an_instrument_and_a_strip() {
    assert!(played(&instrument_state()) > 0.0, "the note never reached the mix");
}

#[test]
fn a_console_with_no_instruments_hears_nothing_from_the_rack() {
    assert!(played(&state_with_input()) < 1e-6);
}
