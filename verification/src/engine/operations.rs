//! What the engine's operations are for: what comes back from a call, and what one
//! call makes of another.

use std::sync::Arc;

use vstd::prelude::*;

use crate::console::eq::EqBandKind;
use crate::console::mix::MixerState;
use crate::engine::call::call_frames;
use crate::engine::compiled::compile;
use crate::engine::compiled::CompileOutput;
use crate::engine::compiled::CompiledGraph;
use crate::engine::compiled::DirectOut;
use crate::engine::compiled::EqCoeffs;
use crate::engine::compiled::EqTarget;
use crate::engine::compiled::FlagSlot;
use crate::engine::compiled::Level;
use crate::engine::compiled::ParamSlot;
use crate::engine::compiled::TapPoint;
use crate::engine::controls::changing_the_high_band;
use crate::engine::controls::moving_a_strip_mute;
use crate::engine::controls::switching_a_strip_pfl;
use crate::engine::engine::engine_pair;
use crate::engine::engine::obeyed_all;
use crate::engine::engine::EngineCommand;
use crate::engine::engine::EngineHandle;
use crate::engine::engine::GraphEngine;
use crate::engine::engine::RetiredView;
use crate::engine::frame::lay_monitor;
use crate::engine::frame::monitor_feed;
use crate::engine::frame::row;
use crate::engine::frame::the_tape_stays_in_the_monitor_pair;
use crate::engine::frame::write_row;
use crate::engine::frame::Stereo;
use crate::engine::frame::TapLevels;
use crate::engine::hearing::a_slot_lies_behind_those_before_it;
use crate::engine::hearing::a_voice_hears_its_events_in_order;
use crate::engine::hearing::has_key;
use crate::engine::hearing::told_of;
use crate::engine::instrument::captures;
use crate::engine::instrument::captures_of;
use crate::engine::instrument::sub_block;
use crate::engine::instrument::width_before;
use crate::engine::instrument::Heard;
use crate::engine::instrument::Instrument;
use crate::engine::instrument::InstrumentRack;
use crate::engine::instrument::KeyFilter;
use crate::engine::instrument::MidiBinding;
use crate::engine::instrument::MidiEvent;
use crate::engine::instrument::VoiceError;
use crate::engine::instrument::VoiceSpec;
use crate::engine::instrument::VoiceView;
use crate::engine::lanes::a_voice_lies_on_its_channels;
use crate::engine::lanes::the_gates_follow_the_switches;
use crate::engine::line::DelayLine;
use crate::engine::meter::strip_point;
use crate::engine::meter::MeterAccum;
use crate::engine::mixdown::countable;
use crate::engine::mixdown::the_mix_holds_what_is_due;
use crate::engine::mixdown::Signal;
use crate::engine::mixdown::Step;
use crate::engine::mixdown::Sum;
use crate::engine::mixdown::Way;
use crate::engine::orders::a_stopped_playback_stays_stopped;
use crate::engine::orders::a_stopped_take_stays_stopped;
use crate::engine::outbox::Outbox;
use crate::engine::paths::a_strip_goes_where_it_is_routed;
use crate::engine::playback::LaneSeen;
use crate::engine::playback::PlaybackSet;
use crate::engine::playback::PlaybackTrack;
use crate::engine::playback::Pull;
use crate::engine::playback::Pulling;
use crate::engine::record::MidiCapture;
use crate::engine::record::RecordSet;
use crate::engine::record::RecordTrack;
use crate::engine::ring::Look;
use crate::engine::ring::RingRx;
use crate::engine::rings::EqIx;
use crate::engine::rings::FlagIx;
use crate::engine::rings::MeterBlock;
use crate::engine::rings::MonitorTarget;
use crate::engine::rings::ParamIx;
use crate::engine::settings::a_compiled_bus_is_the_documents;
use crate::engine::settings::a_compiled_strip_is_the_documents;
use crate::engine::slots::devices_of;
use crate::engine::slots::first_fit;
use crate::engine::slots::name_of;
use crate::engine::slots::output_buffer;
use crate::engine::slots::place_for;
use crate::engine::slots::plane_widths;
use crate::engine::slots::range_at;
use crate::engine::slots::Input;
use crate::engine::slots::InputSlots;
use crate::engine::slots::Output;
use crate::engine::slots::OutputSlots;
use crate::engine::slots::SlotError;
use crate::engine::slots::SlotView;
use crate::engine::slots::Slots;
use crate::engine::taps::an_out_of_a_bus_carries_the_bus;
use crate::engine::taps::an_out_of_a_strip_carries_the_strip;
use crate::engine::taps::an_out_of_the_master_carries_the_master;
use crate::engine::taps::heard_last;
use crate::engine::voices::lay_voice;
use crate::engine::voices::VoicePlace;
use crate::seqs::lemma_first;
use crate::single::Single;

verus! {

/// What is compiled of a document holds its strips: by 0 where one is muted and by 1
/// where it is not, with its gain, its fader, its pan and its bands.
pub proof fn compiling_keeps_the_strips<D>(
    state: &MixerState,
    block_size: usize,
    inputs: &InputSlots,
    outputs: &OutputSlots,
    dsp: D,
    out: CompileOutput<D>,
    i: int,
)
    requires
        call_ensures(compile::<D>, (state, block_size, inputs, outputs, dsp), out),
        0 <= i < state@.strips.len(),
    ensures
        out.graph.dsp == dsp,
        out.graph@.block_size == block_size,
        out.graph@.strips.len() == state@.strips.len(),
        state@.strips[i].mute <==> out.graph@.strips[i].mute.target == Level::Linear(
            Single { bits: 0 },
        ),
        !state@.strips[i].mute <==> out.graph@.strips[i].mute.target == Level::Linear(
            Single { bits: 0x3F80_0000 },
        ),
        out.graph@.strips[i].gain.target == Level::Db(state@.strips[i].gain_db),
        out.graph@.strips[i].fader.target == Level::Db(state@.strips[i].fader_db),
        out.graph@.strips[i].pan.target == Level::Linear(state@.strips[i].pan),
        out.graph@.strips[i].low.target == EqTarget::Band(state@.strips[i].eq.low),
        out.graph@.strips[i].mid.target == EqTarget::Band(state@.strips[i].eq.mid),
        out.graph@.strips[i].high.target == EqTarget::Band(state@.strips[i].eq.high),
        out.graph@.strips[i].eq_enabled == state@.strips[i].eq.enabled,
        out.graph@.strips[i].pfl == state@.strips[i].pfl,
{
    a_compiled_strip_is_the_documents(
        state@,
        block_size,
        inputs.ranges(),
        outputs.ranges(),
        i,
    );
}

/// What is compiled of a document holds its buses.
pub proof fn compiling_keeps_the_buses<D>(
    state: &MixerState,
    block_size: usize,
    inputs: &InputSlots,
    outputs: &OutputSlots,
    dsp: D,
    out: CompileOutput<D>,
    i: int,
)
    requires
        call_ensures(compile::<D>, (state, block_size, inputs, outputs, dsp), out),
        0 <= i < state@.buses.len(),
    ensures
        out.graph@.buses.len() == state@.buses.len(),
        out.graph@.buses[i].kind == state@.buses[i].kind,
        state@.buses[i].mute <==> out.graph@.buses[i].mute.target == Level::Linear(
            Single { bits: 0 },
        ),
        !state@.buses[i].mute <==> out.graph@.buses[i].mute.target == Level::Linear(
            Single { bits: 0x3F80_0000 },
        ),
        out.graph@.buses[i].fader.target == Level::Db(state@.buses[i].fader_db),
        out.graph@.buses[i].pfl == state@.buses[i].pfl,
{
    a_compiled_bus_is_the_documents(state@, block_size, inputs.ranges(), outputs.ranges(), i);
}

/// A mute that is moved to 0 on a running graph rests where a muted document has it,
/// and nothing of what the audio side keeps changes.
pub proof fn moving_a_mute_on_a_running_graph<D>(
    graph: &mut CompiledGraph<D>,
    param: ParamIx,
    target: Single,
    i: u16,
)
    requires
        call_ensures(CompiledGraph::<D>::set_param, (graph, param, target), ()),
        param.0 < old(graph)@.params.len(),
        old(graph)@.params[param.0 as int] == ParamSlot::StripMute(i),
        i < old(graph)@.strips.len(),
    ensures
        final(graph)@.strips[i as int].mute.target == Level::Linear(target),
        final(graph)@.strips[i as int].mute.moved,
        final(graph)@.strips[i as int].fader == old(graph)@.strips[i as int].fader,
        final(graph).dsp == old(graph).dsp,
{
    moving_a_strip_mute(old(graph)@, param, i, target);
}

/// A voice is told of every event but a key it does not have: whatever the status,
/// where it has the key or the status has none.
pub proof fn telling_a_voice(instrument: &mut Instrument, event: &MidiEvent, applied: bool)
    requires
        call_ensures(Instrument::apply, (instrument, event), applied),
    ensures
        has_key(old(instrument)@, event.data1) ==> applied,
        event.status != 0x80 && event.status != 0x90 && event.status != 0xA0 ==> applied,
        old(instrument)@.keys.len() == 0 ==> applied,
        (event.status == 0x80 || event.status == 0x90 || event.status == 0xA0) && !has_key(
            old(instrument)@,
            event.data1,
        ) ==> !applied,
        applied ==> final(instrument)@.heard == old(instrument)@.heard.push(
            Heard::Message {
                channel: 0,
                status: event.status,
                data1: event.data1,
                data2: event.data2,
            },
        ),
        !applied ==> final(instrument)@.heard == old(instrument)@.heard,
        final(instrument)@.binding == old(instrument)@.binding,
        final(instrument)@.keys == old(instrument)@.keys,
        final(instrument)@.settings == old(instrument)@.settings,
{
}

/// A voice that was told a note on is told the note off for that key.
pub proof fn a_started_note_is_ended(
    instrument: &mut Instrument,
    later: &mut Instrument,
    on: &MidiEvent,
    off: &MidiEvent,
    started: bool,
    ended: bool,
)
    requires
        call_ensures(Instrument::apply, (instrument, on), started),
        call_ensures(Instrument::apply, (later, off), ended),
        *old(later) == *final(instrument),
        on.status == 0x90,
        off.status == 0x80,
        on.data1 == off.data1,
        started,
    ensures
        ended,
        final(later)@.heard.len() == old(instrument)@.heard.len() + 2,
{
}

/// A binding takes what comes on its port, and on its channel if it has one.
pub proof fn what_a_binding_takes(binding: &MidiBinding, event: &MidiEvent, accepted: bool)
    requires
        call_ensures(MidiBinding::accepts, (binding, event), accepted),
    ensures
        binding.port is None ==> !accepted,
        accepted ==> binding.port == Some(event.port),
        accepted && binding.channel is Some ==> binding.channel == Some(event.channel),
        binding.port == Some(event.port) && (binding.channel is None || binding.channel == Some(
            event.channel,
        )) ==> accepted,
{
}

/// A filter without ranges covers every key, and one with ranges the keys in them.
pub proof fn what_a_filter_covers(keys: &KeyFilter, key: u8, covers: bool, r: int)
    requires
        call_ensures(KeyFilter::covers, (keys, key), covers),
    ensures
        keys@.len() == 0 ==> covers,
        0 <= r < keys@.len() && keys@[r].0 <= key && key <= keys@[r].1 ==> covers,
        keys@.len() > 0 && (forall|k: int|
            0 <= k < keys@.len() ==> key < (#[trigger] keys@[k]).0 || keys@[k].1 < key) ==> !covers,
{
}

/// A rack that is told to let go tells every voice, and nothing else changes.
pub proof fn letting_all_notes_go(rack: &mut InstrumentRack, i: int)
    requires
        call_ensures(InstrumentRack::all_notes_off, (rack,), ()),
        0 <= i < old(rack)@.len(),
    ensures
        final(rack)@.len() == old(rack)@.len(),
        final(rack).widths == old(rack).widths,
        match (old(rack)@[i], final(rack)@[i]) {
            (Some(before), Some(after)) => after.heard == before.heard.push(Heard::Release)
                && after.binding == before.binding && after.keys == before.keys,
            (None, None) => true,
            _ => false,
        },
{
}

/// The channel of an out carries the node that the out names, in the row that was
/// written, and the rows around it stay.
pub proof fn writing_a_row(
    plane: &mut Vec<Single>,
    frame: usize,
    feed: Stereo,
    outs: &Vec<DirectOut>,
    strips: &Vec<TapLevels>,
    buses: &Vec<TapLevels>,
    master: TapLevels,
    j: int,
)
    requires
        call_ensures(write_row, (plane, frame, feed, outs, strips, buses, master), ()),
        (frame + 1) * 64 <= old(plane)@.len(),
        heard_last(outs@, j),
        outs@[j].source matches TapPoint::Strip(i) ==> i < strips@.len(),
        outs@[j].source matches TapPoint::Bus(b) ==> b < buses@.len(),
    ensures
        final(plane)@.len() == old(plane)@.len(),
        ({
            let heard = final(plane)@[frame * 64 + outs@[j].channel];
            let node = match outs@[j].source {
                TapPoint::Strip(i) => strips@[i as int],
                TapPoint::Bus(b) => buses@[b as int],
                TapPoint::Master => master,
            };
            &&& outs@[j].pre && outs@[j].side == 0 ==> heard == node.pre.l
            &&& outs@[j].pre && outs@[j].side != 0 ==> heard == node.pre.r
            &&& !outs@[j].pre && outs@[j].side == 0 ==> heard == node.post.l
            &&& !outs@[j].pre && outs@[j].side != 0 ==> heard == node.post.r
        }),
        forall|i: int|
            0 <= i < frame * 64 || (frame + 1) * 64 <= i < old(plane)@.len()
                ==> #[trigger] final(plane)@[i] == old(plane)@[i],
{
    let written = final(plane)@.subrange(frame * 64, (frame + 1) * 64);
    assert(written == row(feed, outs@, strips@, buses@, master, outs@.len() as int));
    assert(outs@[j].channel < 64);
    assert(written[outs@[j].channel as int] == final(plane)@[frame * 64 + outs@[j].channel]);
    match outs@[j].source {
        TapPoint::Strip(i) => {
            an_out_of_a_strip_carries_the_strip(feed, outs@, strips@, buses@, master, j, i);
        },
        TapPoint::Bus(b) => {
            an_out_of_a_bus_carries_the_bus(feed, outs@, strips@, buses@, master, j, b);
        },
        TapPoint::Master => {
            an_out_of_the_master_carries_the_master(feed, outs@, strips@, buses@, master, j);
        },
    }
}

/// What is listened to goes to both sides of the monitor while anything is, and the
/// mix goes there otherwise.
pub proof fn what_the_monitor_carries(any_pfl: bool, pfl: Single, mix: Stereo, feed: Stereo)
    requires
        call_ensures(monitor_feed, (any_pfl, pfl, mix), feed),
    ensures
        any_pfl ==> feed.l == pfl && feed.r == pfl,
        !any_pfl ==> feed.l == mix.l && feed.r == mix.r,
{
}

/// The tape lies on the first two channels of the frames of the chunk, and everything
/// else of the plane stays.
pub proof fn laying_the_tape(
    plane: &mut Vec<Single>,
    done: usize,
    chunk: usize,
    tape: &Vec<Single>,
    frame: int,
    channel: int,
)
    requires
        call_ensures(lay_monitor, (plane, done, chunk, tape), ()),
        (done + chunk) * 64 <= old(plane)@.len(),
        0 <= frame,
        0 <= channel < 64,
        (frame + 1) * 64 <= old(plane)@.len(),
    ensures
        ({
            let heard = final(plane)@[frame * 64 + channel];
            &&& done <= frame < done + chunk && channel == 0 ==> heard == tape@[2 * (frame - done)]
            &&& done <= frame < done + chunk && channel == 1 ==> heard == tape@[2 * (frame - done)
                + 1]
            &&& !(done <= frame < done + chunk && channel < 2) ==> heard == old(plane)@[frame * 64
                + channel]
        }),
{
    the_tape_stays_in_the_monitor_pair(
        old(plane)@,
        done as int,
        tape@,
        chunk as int,
        frame,
        channel,
    );
}

/// A voice lies on the channels of its slot.
pub proof fn laying_a_voice(
    buf: &mut Vec<Single>,
    place: VoicePlace,
    done: usize,
    heard: &Vec<Stereo>,
    frame: int,
    channel: int,
)
    requires
        call_ensures(lay_voice, (buf, place, done, heard), ()),
        0 <= frame,
        0 <= channel < place.channels,
        frame * place.channels + channel < old(buf)@.len(),
    ensures
        ({
            let put = final(buf)@[frame * place.channels + channel];
            let mine = done <= frame < done + heard@.len() && place.base <= channel < place.base
                + place.width;
            &&& mine && channel == place.base ==> put == heard@[frame - done].l
            &&& mine && channel > place.base ==> put == heard@[frame - done].r
            &&& !mine ==> put == old(buf)@[frame * place.channels + channel]
        }),
{
    a_voice_lies_on_its_channels(old(buf)@, place, done as int, heard@, frame, channel);
}

/// Behind a block whose last word on recording was a stop, the engine holds no record
/// set, and likewise for playback. What it held before is handed over.
pub proof fn a_block_that_ends_in_a_stop<D, G>(engine: &mut GraphEngine<D, G>, stop: int)
    requires
        call_ensures(GraphEngine::<D, G>::begin_block, (engine,), ()),
        old(engine).cmd_rx.taken().len() <= stop < final(engine).cmd_rx.taken().len(),
    ensures
        ({
            let taken = final(engine).cmd_rx.taken();
            &&& (taken[stop] is StopRecord && forall|k: int|
                stop < k < taken.len() ==> !((#[trigger] taken[k]) is StartRecord))
                ==> final(engine).record is None
            &&& (taken[stop] is StopPlayback && forall|k: int|
                stop < k < taken.len() ==> !((#[trigger] taken[k]) is StartPlayback))
                ==> final(engine).playback is None
        }),
{
    let before = old(engine).cmd_rx.taken();
    let taken = final(engine).cmd_rx.taken();
    let commands = taken.skip(before.len() as int);
    let at = stop - before.len();
    assert(commands[at] == taken[stop]);
    if taken[stop] is StopRecord && forall|k: int|
        stop < k < taken.len() ==> !((#[trigger] taken[k]) is StartRecord) {
        assert forall|k: int| at < k < commands.len() implies !((
        #[trigger] commands[k]) is StartRecord) by {
            assert(commands[k] == taken[k + before.len()]);
        }
        a_stopped_take_stays_stopped(old(engine)@, commands, at, commands.len() as int);
        assert(final(engine)@.record is None);
    }
    if taken[stop] is StopPlayback && forall|k: int|
        stop < k < taken.len() ==> !((#[trigger] taken[k]) is StartPlayback) {
        assert forall|k: int| at < k < commands.len() implies !((
        #[trigger] commands[k]) is StartPlayback) by {
            assert(commands[k] == taken[k + before.len()]);
        }
        a_stopped_playback_stays_stopped(old(engine)@, commands, at, commands.len() as int);
        assert(final(engine)@.playback is None);
    }
}

/// A stop that is alone in its block hands the record set to the control side, as the
/// last thing that was handed over.
pub proof fn a_block_of_one_stop<D, G>(engine: &mut GraphEngine<D, G>)
    requires
        call_ensures(GraphEngine::<D, G>::begin_block, (engine,), ()),
        final(engine).cmd_rx.taken() == old(engine).cmd_rx.taken().push(EngineCommand::StopRecord),
        old(engine)@.record is Some,
    ensures
        final(engine)@.record is None,
        final(engine)@.handed == old(engine)@.handed.push(
            RetiredView::Record(old(engine)@.record->0),
        ),
        final(engine)@.playback == old(engine)@.playback,
        final(engine)@.graph == old(engine)@.graph,
        final(engine)@.rack == old(engine)@.rack,
{
    let before = old(engine).cmd_rx.taken();
    let commands = final(engine).cmd_rx.taken().skip(before.len() as int);
    assert(commands =~= seq![EngineCommand::<D, G>::StopRecord]);
    reveal_with_fuel(obeyed_all, 2);
}

/// A new engine runs the given graph, with no rack, no take and its clocks at 0, and
/// is heard on the hardware.
pub proof fn a_new_engine<D, G>(
    initial: Box<CompiledGraph<D>>,
    pair: (EngineHandle<D, G>, GraphEngine<D, G>),
)
    requires
        call_ensures(engine_pair::<D, G>, (initial,), pair),
    ensures
        pair.1@.graph == initial@,
        pair.1@.dsp == initial.dsp,
        pair.1@.rack.voices.len() == 0,
        pair.1@.record is None,
        pair.1@.playback is None,
        pair.1@.monitor == MonitorTarget::Hardware,
        pair.1@.frame == 0,
        pair.1@.sample_frame == 0,
        pair.1@.handed.len() == 0,
{
}

/// A meter shows the loudest sample since it was last taken, and that it clipped if
/// one reached the threshold. Taking it starts over.
pub proof fn a_meter_shows_the_loudest(
    meter: &mut MeterAccum,
    sample: Single,
    later: &mut MeterAccum,
    reading: (Single, bool),
)
    requires
        call_ensures(MeterAccum::accumulate, (meter, sample), ()),
        call_ensures(MeterAccum::take, (later,), reading),
        *old(later) == *final(meter),
        !old(meter).peak.is_nan(),
        old(meter).peak.rank() >= 0,
        !sample.is_nan(),
        !old(meter).clip_linear.is_nan(),
    ensures
        reading.0.rank() >= old(meter).peak.rank(),
        reading.0.rank() >= sample.rank(),
        reading.0.rank() >= -sample.rank(),
        reading.0 == old(meter).peak || reading.0.rank() == sample.rank() || reading.0.rank()
            == -sample.rank(),
        reading.1 <==> old(meter).clipped || old(meter).clip_linear.rank() <= sample.rank()
            || old(meter).clip_linear.rank() <= -sample.rank(),
        final(later).peak.bits == 0,
        !final(later).clipped,
        final(later).clip_linear == old(meter).clip_linear,
{
}

/// Strip `i` is shown at point `i`, up to the 63rd. The last of the points is the
/// master's.
pub proof fn where_a_meter_stands<D>(
    strip: usize,
    point: Option<usize>,
    graph: &CompiledGraph<D>,
    master: usize,
)
    requires
        call_ensures(strip_point, (strip,), point),
        call_ensures(CompiledGraph::<D>::master_point, (graph,), master),
        graph@.meter_count > 0,
    ensures
        strip < 63 ==> point == Some(strip),
        strip >= 63 ==> point is None,
        master + 1 == graph@.meter_count,
{
}

/// What a strip gives before its fader goes to the one track that the strip is wired
/// to, and to no other.
pub proof fn recording_a_strip(set: &mut RecordSet, strip: usize, pre: Single, t: int)
    requires
        call_ensures(RecordSet::record_strip, (set, strip, pre), ()),
        old(set).wf(),
        0 <= t < old(set).tracks@.len(),
    ensures
        final(set).tracks@.len() == old(set).tracks@.len(),
        ({
            let wired = strip < old(set).strip_tracks@.len() && (old(set).strip_tracks@[strip as int]
                matches Some(own) && own == t);
            &&& wired ==> final(set).tracks@[t].offered() == old(set).tracks@[t].offered().push(pre)
            &&& !wired ==> final(set).tracks@[t] == old(set).tracks@[t]
        }),
        final(set).midi == old(set).midi,
        final(set).strip_tracks == old(set).strip_tracks,
        final(set).master_track == old(set).master_track,
{
    assert(old(set).tracks@[t].offered() + seq![pre] =~= old(set).tracks@[t].offered().push(pre));
    assert(final(set).tracks@[t] == final(set).tracks@[t]);
}

/// The mix goes to the master's track, left and right in turn, and to no other.
pub proof fn recording_the_mix(set: &mut RecordSet, mix: Stereo, t: int)
    requires
        call_ensures(RecordSet::record_mix, (set, mix), ()),
        old(set).wf(),
        0 <= t < old(set).tracks@.len(),
    ensures
        final(set).tracks@.len() == old(set).tracks@.len(),
        ({
            let wired = old(set).master_track matches Some(own) && own == t;
            &&& wired ==> final(set).tracks@[t].offered() == old(set).tracks@[t].offered().push(
                mix.l,
            ).push(mix.r)
            &&& !wired ==> final(set).tracks@[t] == old(set).tracks@[t]
        }),
        final(set).midi == old(set).midi,
{
    assert(old(set).tracks@[t].offered() + seq![mix.l, mix.r] =~= old(
        set,
    ).tracks@[t].offered().push(mix.l).push(mix.r));
    assert(final(set).tracks@[t] == final(set).tracks@[t]);
}

/// A capture counts from where it was started.
pub proof fn a_capture_counts_from_its_start(
    capture: &mut MidiCapture,
    start: u64,
    now: u64,
    at: u64,
)
    requires
        call_ensures(MidiCapture::start_at, (capture, start), ()),
        call_ensures(MidiCapture::elapsed, (&*final(capture), now), at),
    ensures
        now >= start ==> at == now - start,
        now < start ==> at == 0,
        final(capture).offered() == old(capture).offered(),
        final(capture).recorded() == old(capture).recorded(),
{
}

/// What is put into a line comes back after the delay: the latest after one step, and
/// the one before it after two.
pub proof fn a_line_gives_back_what_was_put_in(
    line: &mut DelayLine,
    later: &mut DelayLine,
    first: Single,
    second: Single,
    one: Single,
    two: Single,
)
    requires
        call_ensures(DelayLine::put_in, (line, first), ()),
        call_ensures(DelayLine::put_in, (later, second), ()),
        *old(later) == *final(line),
        old(line).wf(),
        old(line).length() > 2,
        call_ensures(DelayLine::tap, (&*final(later), 1usize), one),
        call_ensures(DelayLine::tap, (&*final(later), 2usize), two),
    ensures
        one == second,
        two == first,
        final(later).length() == old(line).length(),
{
}

/// A new line is silent for its length.
pub proof fn a_new_line_is_silent(length: usize, line: DelayLine, delay: usize, sample: Single)
    requires
        call_ensures(DelayLine::new, (length,), line),
        length > 0,
        call_ensures(DelayLine::tap, (&line, delay), sample),
    ensures
        line.length() == length,
        sample.bits == 0,
{
}

/// A synthesiser is run in blocks of 64 frames, and a shorter one at the end.
pub proof fn a_synth_runs_in_blocks(frames: usize, done: usize, chunk: usize)
    requires
        call_ensures(sub_block, (frames, done), chunk),
        done <= frames,
    ensures
        frames - done >= 64 ==> chunk == 64,
        frames - done < 64 ==> chunk == frames - done,
{
}

/// A lane that has ended holds nobody up. One that has not gives whole frames, and
/// never more than were possible before. The tape has run out when every lane has.
pub proof fn lanes_are_seen_one_by_one(
    frames: usize,
    start: Pulling,
    lane: LaneSeen,
    channels: u16,
    next: Pulling,
    pull: Pull,
)
    requires
        call_ensures(Pulling::start, (frames,), start),
        call_ensures(Pulling::see, (start, lane, channels), next),
        call_ensures(Pulling::verdict, (next,), pull),
        channels > 0,
    ensures
        lane.ended ==> pull == Pull::Finished,
        !lane.ended ==> (pull matches Pull::Frames(n) && n <= frames && n * channels
            <= lane.slots && (n < frames ==> lane.slots < (n + 1) * channels)),
{
    let w = channels as int;
    let n = lane.slots as int / w;
    assert(n * w <= lane.slots < (n + 1) * w) by (nonlinear_arith)
        requires
            n == lane.slots as int / w,
            w > 0,
    ;
    if !lane.ended && frames as int <= n {
        assert(frames * w <= n * w) by (nonlinear_arith)
            requires
                0 <= frames <= n,
                w > 0,
        ;
    }
}

/// A mono lane gives one sample to both sides, and a stereo lane one to each.
pub proof fn a_lane_pops_a_frame<G>(track: &mut PlaybackTrack<G>, frame: (Single, Single))
    requires
        call_ensures(PlaybackTrack::<G>::pop_frame, (track,), frame),
        old(track).rx.waiting() >= 2,
    ensures
        old(track).channels != 2 ==> frame.0 == frame.1,
        old(track).channels != 2 ==> final(track).rx.taken() == old(track).rx.taken().push(frame.0),
        old(track).channels == 2 ==> final(track).rx.taken() == old(track).rx.taken().push(
            frame.0,
        ).push(frame.1),
        final(track).solo == old(track).solo,
        final(track).mute == old(track).mute,
        final(track).gate == old(track).gate,
{
}

/// A solo on a set opens the lanes on solo that are not muted, and shuts the others.
pub proof fn soloing_a_lane<G>(set: &mut PlaybackSet<G>, track: u16, k: int)
    requires
        call_ensures(PlaybackSet::<G>::set_solo, (set, track, true), ()),
        track < old(set).tracks@.len(),
        0 <= k < old(set).tracks@.len(),
    ensures
        final(set).tracks@[track as int].solo,
        final(set).tracks@[k].gate.open <==> !old(set).tracks@[k].mute && (k == track || old(
            set,
        ).tracks@[k].solo),
{
    let lane = PlaybackTrack { solo: true, ..old(set).tracks@[track as int] };
    let tracks = old(set).tracks@.update(track as int, lane);
    assert(tracks[track as int].solo);
}

/// A mute on a set shuts the lane, and changes no other solo or mute.
pub proof fn muting_a_lane<G>(set: &mut PlaybackSet<G>, track: u16, on: bool, k: int)
    requires
        call_ensures(PlaybackSet::<G>::set_mute, (set, track, on), ()),
        track < old(set).tracks@.len(),
        0 <= k < old(set).tracks@.len(),
    ensures
        on ==> !final(set).tracks@[track as int].gate.open,
        final(set).tracks@[track as int].mute == on,
        final(set).tracks@[k].solo == old(set).tracks@[k].solo,
        k != track ==> final(set).tracks@[k].mute == old(set).tracks@[k].mute,
{
}

/// An allocated device holds its channels: asked again for as many it gives the same
/// place, and it resolves every one of them from there.
pub proof fn an_allocated_device_resolves(
    slots: &mut Slots<Input>,
    device: Option<&str>,
    channels: u16,
    result: Result<u16, SlotError>,
    channel: u16,
    index: Option<u16>,
    held: Option<(u16, u16)>,
)
    requires
        call_ensures(Slots::<Input>::allocate, (slots, device, channels), result),
        old(slots).wf(),
        result is Ok,
        call_ensures(Slots::<Input>::resolve, (&*final(slots), device, channel), index),
        call_ensures(Slots::<Input>::get, (&*final(slots), device), held),
    ensures
        held == Some((result->Ok_0, channels)),
        channel < channels ==> (index matches Some(at) && at == result->Ok_0 + channel),
        channel >= channels ==> index is None,
        result->Ok_0 + channels <= 64,
{
    let name = name_of(device);
    let before = old(slots).ranges();
    let after = final(slots).ranges();
    devices_of(before).index_of_first_ensures(name);
    devices_of(after).index_of_first_ensures(name);
    plane_widths();
    let at = choose|i: int|
        0 <= i < after.len() && (#[trigger] after[i]).device == name && after[i].offset
            == result->Ok_0 && after[i].channels == channels;
    if range_at(before, name) is None {
        let offset = first_fit(
            before,
            0,
            old(slots).held_back() as int,
            channels,
        );
        let place = place_for(before, offset, 0);
        lemma_place(before, offset, 0);
        assert(after[place].device == name);
    } else {
        let i = range_at(before, name)->0;
        assert(after[i].device == name);
    }
    assert(devices_of(after)[at] == name);
    let found = devices_of(after).index_of_first(name)->0;
    assert(after[found].device == name);
    if found != at {
        assert(after[found].device != after[at].device);
    }
}

proof fn lemma_place(ranges: Seq<SlotView>, offset: int, i: int)
    requires
        0 <= i <= ranges.len(),
    ensures
        i <= place_for(ranges, offset, i) <= ranges.len(),
    decreases ranges.len() - i,
{
    if i < ranges.len() && ranges[i].offset <= offset {
        lemma_place(ranges, offset, i + 1);
    }
}

/// The planes as they come: the output's silent, with its first two channels held
/// back for the monitor, and one device on its own from the first channel on.
pub proof fn planes_as_they_come(
    block_size: usize,
    plane: Vec<Single>,
    outputs: Slots<Output>,
    channels: u16,
    inputs: Slots<Input>,
)
    requires
        call_ensures(output_buffer, (block_size,), plane),
        call_ensures(Slots::<Output>::with_monitor, (), outputs),
        call_ensures(Slots::<Input>::single_default, (channels,), inputs),
    ensures
        plane@.len() == block_size * 64,
        forall|i: int| 0 <= i < plane@.len() ==> (#[trigger] plane@[i]).bits == 0,
        outputs.held_back() == 2,
        outputs.ranges().len() == 0,
        inputs.held_back() == 0,
        inputs.ranges().len() == 1,
        inputs.ranges()[0].device is None,
        inputs.ranges()[0].offset == 0,
        inputs.ranges()[0].channels == channels,
{
}

/// A device that already holds another width is refused, and nothing changes.
pub proof fn a_held_device_keeps_its_width(
    slots: &mut Slots<Input>,
    device: Option<&str>,
    channels: u16,
    result: Result<u16, SlotError>,
    i: int,
)
    requires
        call_ensures(Slots::<Input>::allocate, (slots, device, channels), result),
        old(slots).wf(),
        0 <= i < old(slots).ranges().len(),
        old(slots).ranges()[i].device == name_of(device),
    ensures
        final(slots).ranges() == old(slots).ranges(),
        old(slots).ranges()[i].channels == channels ==> result == Ok::<u16, SlotError>(
            old(slots).ranges()[i].offset,
        ),
        old(slots).ranges()[i].channels != channels ==> result == Err::<u16, SlotError>(
            SlotError::WidthChanged { held: old(slots).ranges()[i].channels, wanted: channels },
        ),
{
    let ranges = old(slots).ranges();
    assert forall|j: int| 0 <= j < i implies devices_of(ranges)[j] != name_of(device) by {
        assert(ranges[j].device != ranges[i].device);
    }
    lemma_first(devices_of(ranges), name_of(device), i);
}

/// A call is whole frames of 64 output channels and as many frames of input, or it is
/// refused.
pub proof fn a_call_is_whole_frames(
    output: usize,
    input: usize,
    input_channels: usize,
    frames: Option<usize>,
)
    requires
        call_ensures(call_frames, (output, input, input_channels), frames),
    ensures
        frames matches Some(f) ==> output == f * 64 && input == f * input_channels,
        output % 64 != 0 ==> frames is None,
{
    if let Some(f) = frames {
        assert(output as int == f * 64);
    }
}

/// A meter point that is marked is clipped, and no other changes. An empty block has
/// none.
pub proof fn a_marked_point_is_clipped(
    block: &mut MeterBlock,
    index: usize,
    clipped: bool,
    other: usize,
    before: bool,
    after: bool,
)
    requires
        call_ensures(MeterBlock::mark, (block, index), ()),
        index < 64,
        call_ensures(MeterBlock::clipped, (&*final(block), index), clipped),
        other < 64,
        other != index,
        call_ensures(MeterBlock::clipped, (&*old(block), other), before),
        call_ensures(MeterBlock::clipped, (&*final(block), other), after),
    ensures
        clipped,
        before == after,
        final(block).peak == old(block).peak,
        final(block).frame == old(block).frame,
{
}

/// An empty block of meters has its number, no points and silence.
pub proof fn an_empty_block_of_meters(frame: u64, block: MeterBlock, i: int)
    requires
        call_ensures(MeterBlock::empty, (frame,), block),
        0 <= i < 64,
    ensures
        block.frame == frame,
        block.count == 0,
        block.clip_bits == 0,
        block.peak@[i].bits == 0,
{
    assert(block.peak@[i] == block.peak@[i]);
}

/// A synthesiser is made within its limits, from 16 to 192 kHz and 8 to 256 voices,
/// with the preset chosen and nothing else played.
pub proof fn making_a_voice(
    soundfont: &Arc<rustysynth::SoundFont>,
    spec: &VoiceSpec,
    made: Result<Instrument, VoiceError>,
)
    requires
        call_ensures(Instrument::new, (soundfont, spec), made),
    ensures
        made is Ok <==> 16_000 <= spec.sample_rate <= 192_000 && 8 <= spec.polyphony <= 256,
        made matches Ok(voice) ==> {
            &&& voice@.binding == spec.binding
            &&& voice@.keys == spec.keys@
            &&& voice@.heard.len() == 3
            &&& voice@.heard[2] == (Heard::Message {
                channel: 0,
                status: 0xC0,
                data1: spec.program,
                data2: 0,
            })
            &&& voice@.settings == (spec.sample_rate, 64usize, spec.polyphony, spec.effects)
        },
        spec.sample_rate < 16_000 ==> made == Err::<Instrument, VoiceError>(
            VoiceError::SampleRateOutOfRange(spec.sample_rate),
        ),
{
}

/// A sample that is pushed to a track is offered once, and is either recorded behind
/// the others or counted as lost.
pub proof fn a_sample_is_recorded_or_lost(track: &mut RecordTrack, sample: Single)
    requires
        call_ensures(RecordTrack::push, (track, sample), ()),
    ensures
        final(track).offered() == old(track).offered().push(sample),
        (final(track).recorded() == old(track).recorded().push(sample) && final(track).lost()
            == old(track).lost()) || (final(track).recorded() == old(track).recorded()
            && final(track).lost() == old(track).lost() + 1),
{
}

/// The notes that come in are taken off their ring and heard by the rack, one by one
/// and in order. They are stamped and noted only while a take captures notes.
pub proof fn notes_that_come_in<D, G>(engine: &mut GraphEngine<D, G>, rendered: u64, i: int)
    requires
        call_ensures(GraphEngine::<D, G>::apply_midi, (engine, rendered), ()),
        old(engine)@.sample_frame + rendered <= u64::MAX,
        0 <= i < old(engine)@.rack.voices.len(),
        old(engine)@.rack.voices[i] is Some,
        width_before(
            old(engine)@.rack.widths,
            old(engine)@.rack.widths.len() as int,
        ) > 0,
    ensures
        ({
            let events = final(engine).midi_rx.taken().skip(
                old(engine).midi_rx.taken().len() as int,
            );
            let voice = old(engine)@.rack.voices[i]->0;
            &&& final(engine)@.rack.voices[i] is Some
            &&& final(engine)@.rack.voices[i]->0.heard == voice.heard + told_of(voice, events)
        }),
        old(engine)@.record is None ==> final(engine)@.record is None,
        final(engine)@.graph == old(engine)@.graph,
        final(engine)@.playback == old(engine)@.playback,
        final(engine)@.sample_frame == old(engine)@.sample_frame,
{
    let events = final(engine).midi_rx.taken().skip(old(engine).midi_rx.taken().len() as int);
    a_voice_hears_its_events_in_order(old(engine)@.rack.voices, events, i);
}

/// The end of a chunk moves the clocks by one block and its frames, and touches no
/// recording.
pub proof fn finishing_a_chunk<D, G>(
    engine: &mut GraphEngine<D, G>,
    plane: &mut Vec<Single>,
    done: usize,
    chunk: usize,
    peak: [Single; 64],
    clip_bits: u64,
    tape: &Vec<Single>,
    pull: Option<Pull>,
)
    requires
        call_ensures(
            GraphEngine::<D, G>::finish_chunk,
            (engine, plane, done, chunk, peak, clip_bits, tape, pull),
            (),
        ),
        old(engine)@.frame < u64::MAX,
        old(engine)@.sample_frame + chunk <= u64::MAX,
    ensures
        final(engine)@.frame == old(engine)@.frame + 1,
        final(engine)@.sample_frame == old(engine)@.sample_frame + chunk,
        final(engine)@.record == old(engine)@.record,
        final(engine)@.graph == old(engine)@.graph,
        final(engine)@.rack == old(engine)@.rack,
        final(engine)@.monitor == old(engine)@.monitor,
        pull is None ==> final(engine)@.playback == old(engine)@.playback && final(plane)@ == old(
            plane,
        )@,
        pull == Some(Pull::Finished) ==> final(engine)@.playback is None && final(plane)@ == old(
            plane,
        )@,
{
}

/// A chunk is the graph's block, or what is left.
pub proof fn the_next_chunk<D, G>(
    engine: &GraphEngine<D, G>,
    frames: usize,
    done: usize,
    chunk: usize,
)
    requires
        call_ensures(GraphEngine::<D, G>::next_chunk, (engine, frames, done), chunk),
        done <= frames,
    ensures
        chunk <= engine@.graph.block_size,
        done + chunk <= frames,
        chunk == engine@.graph.block_size || done + chunk == frames,
{
}

/// A slot lies behind the channels of those before it, and is as wide as the document
/// laid it out.
pub proof fn where_a_slot_lies(
    rack: &InstrumentRack,
    slot: usize,
    behind: usize,
    place: VoicePlace,
    next: VoicePlace,
)
    requires
        rack.wf(),
        behind == slot + 1,
        behind < rack.widths@.len(),
        call_ensures(InstrumentRack::place_of, (rack, slot), place),
        call_ensures(InstrumentRack::place_of, (rack, behind), next),
    ensures
        place.width == rack.widths@[slot as int],
        next.base == place.base + place.width,
        next.channels == place.channels,
        slot == 0 ==> place.base == 0,
{
    a_slot_lies_behind_those_before_it(rack.widths@, slot as int, slot as int);
}

/// The plan of a mix is the one of its graph.
pub proof fn planning_a_mix<D>(graph: &CompiledGraph<D>, steps: &mut Vec<Step>, i: usize, into: Sum)
    requires
        call_ensures(CompiledGraph::<D>::plan_mix, (graph, steps), ()),
        countable(graph@),
        i < graph@.strips.len(),
    ensures
        final(steps)@.contains(Step::Add { from: Signal::StripPost(i), way: Way::Pan, into })
            <==> match graph@.strips[i as int].route {
            None => into == Sum::Mix,
            Some(bus) => into == Sum::Bus(bus as usize),
        },
        final(steps)@.no_duplicates(),
{
    a_strip_goes_where_it_is_routed(graph@, i, into);
    the_mix_holds_what_is_due(graph@, Step::Strip(i));
}

/// A new set opens the lanes that a take without solos lets through.
pub proof fn a_new_playback_set<G>(
    tracks: Vec<PlaybackTrack<G>>,
    has_master: bool,
    set: PlaybackSet<G>,
    k: int,
)
    requires
        call_ensures(PlaybackSet::<G>::new, (tracks, has_master), set),
        0 <= k < tracks@.len(),
        forall|j: int| 0 <= j < tracks@.len() ==> !(#[trigger] tracks@[j]).solo,
    ensures
        set.has_master == has_master,
        set.told@.frames == 0,
        !set.told@.finished,
        set.tracks@.len() == tracks@.len(),
        set.tracks@[k].gate.open <==> !tracks@[k].mute && (!has_master || tracks@[k].is_master),
{
    the_gates_follow_the_switches(tracks@, has_master, k);
}

/// The frames that were played are counted.
pub proof fn played_frames_are_counted<G>(set: &mut PlaybackSet<G>, frames: u64)
    requires
        call_ensures(PlaybackSet::<G>::advance, (set, frames), ()),
    ensures
        final(set).told@.frames == old(set).told@.frames + frames,
        final(set).told@.finished == old(set).told@.finished,
        final(set).tracks == old(set).tracks,
{
}

/// A switch on a running graph reaches the one strip.
pub proof fn switching_a_pfl_on_a_running_graph<D>(
    graph: &mut CompiledGraph<D>,
    flag: FlagIx,
    on: bool,
    i: u16,
)
    requires
        call_ensures(CompiledGraph::<D>::set_flag, (graph, flag, on), ()),
        flag.0 < old(graph)@.flags.len(),
        old(graph)@.flags[flag.0 as int] == FlagSlot::StripPfl(i),
        i < old(graph)@.strips.len(),
    ensures
        final(graph)@.strips[i as int].pfl == on,
        final(graph)@.strips[i as int].mute == old(graph)@.strips[i as int].mute,
        final(graph)@.buses == old(graph)@.buses,
        final(graph).dsp == old(graph).dsp,
{
    switching_a_strip_pfl(old(graph)@, flag, i, on);
}

/// New coefficients on a running graph reach the one band.
pub proof fn changing_a_band_on_a_running_graph<D>(
    graph: &mut CompiledGraph<D>,
    eq: EqIx,
    coeffs: EqCoeffs,
    i: u16,
)
    requires
        call_ensures(CompiledGraph::<D>::set_eq_coeffs, (graph, eq, coeffs), ()),
        eq.0 < old(graph)@.eqs.len(),
        old(graph)@.eqs[eq.0 as int].strip == i,
        old(graph)@.eqs[eq.0 as int].band == EqBandKind::HighShelf,
        i < old(graph)@.strips.len(),
    ensures
        final(graph)@.strips[i as int].high.target == EqTarget::Coeffs(coeffs),
        final(graph)@.strips[i as int].low == old(graph)@.strips[i as int].low,
        final(graph)@.strips[i as int].mid == old(graph)@.strips[i as int].mid,
        final(graph).dsp == old(graph).dsp,
{
    changing_the_high_band(old(graph)@, eq, i, coeffs);
}

/// The notes of a run of events are those of each event in turn.
pub proof fn notes_come_event_by_event(
    rack: Seq<Option<VoiceView>>,
    events: Seq<MidiEvent>,
    at: u64,
    n: int,
)
    requires
        0 <= n < events.len(),
    ensures
        captures(rack, events, at, 0).len() == 0,
        captures(rack, events, at, n + 1) == captures(rack, events, at, n) + captures_of(
            rack,
            events[n],
            at,
            rack.len() as int,
        ),
{
}

/// What a full ring does not take is parked, and handed over later, newest first.
/// Nothing is handed over twice, and nothing that is parked is lost.
pub proof fn what_a_full_ring_does_not_take_is_parked<T>(
    outbox: &mut Outbox<T>,
    retiree: T,
    later: &mut Outbox<T>,
)
    requires
        call_ensures(Outbox::<T>::retire, (outbox, retiree), ()),
        call_ensures(Outbox::<T>::flush, (later,), ()),
        *old(later) == *final(outbox),
        old(outbox).parked().len() == 0,
        old(outbox).places() > 0,
    ensures
        final(outbox).entrusted() == old(outbox).entrusted().push(retiree),
        final(outbox).sent() == old(outbox).sent().push(retiree) || final(outbox).parked()
            == seq![retiree],
        final(later).sent() == old(outbox).sent().push(retiree) || (final(later).sent() == old(
            outbox,
        ).sent() && final(later).parked() == seq![retiree]),
        final(later).lost() == final(outbox).lost(),
{
    assert(old(outbox).parked() =~= Seq::<T>::empty());
    assert(Seq::<T>::empty().push(retiree) =~= seq![retiree]);
    let parked = final(outbox).parked();
    let left = final(later).parked().len() as int;
    if parked.len() == 0 {
        assert(parked.skip(0).reverse() =~= Seq::<T>::empty());
        assert(final(later).sent() =~= final(outbox).sent());
    } else {
        assert(parked =~= seq![retiree]);
        if left == 0 {
            assert(parked.skip(0).reverse() =~= seq![retiree]);
            assert(final(later).sent() =~= old(outbox).sent().push(retiree));
        } else {
            assert(parked.skip(1).reverse() =~= Seq::<T>::empty());
            assert(final(later).sent() =~= old(outbox).sent());
            assert(final(later).parked() =~= seq![retiree]);
        }
    }
}

/// A ring has ended where a look shows that its writer is gone, and a second one that
/// nothing is left. Nothing is taken by looking.
pub proof fn when_a_ring_has_ended<T>(rx: &mut RingRx<T>, ended: bool)
    requires
        call_ensures(RingRx::<T>::has_ended, (rx,), ended),
    ensures
        ({
            let seen = final(rx).looks().skip(old(rx).looks().len() as int);
            &&& ended <==> seen == seq![Look::Abandoned(true), Look::Empty(true)]
            &&& !ended ==> seen == seq![Look::Abandoned(false)] || seen
                == seq![Look::Abandoned(true), Look::Empty(false)]
        }),
        final(rx).taken() == old(rx).taken(),
        old(rx).waiting() > 0 ==> !ended,
{
    let seen = final(rx).looks().skip(old(rx).looks().len() as int);
    if !ended {
        let over = seq![Look::Abandoned(true), Look::Empty(true)];
        assert(over[0] == Look::Abandoned(true) && over[1] == Look::Empty(true));
        if seen == over {
            assert(seen.len() == 2 && seen[1] == Look::Empty(true));
            assert(seq![Look::Abandoned(false)].len() == 1);
            assert(seq![Look::Abandoned(true), Look::Empty(false)][1] == Look::Empty(false));
        }
    }
}

/// What is parked goes out from the newest back, and what stays parked stays in its
/// place.
pub proof fn the_newest_goes_out_first<T>(outbox: &mut Outbox<T>, k: int)
    requires
        call_ensures(Outbox::<T>::flush, (outbox,), ()),
    ensures
        final(outbox).sent().len() + final(outbox).parked().len() == old(outbox).sent().len() + old(
            outbox,
        ).parked().len(),
        old(outbox).sent().is_prefix_of(final(outbox).sent()),
        final(outbox).parked().is_prefix_of(old(outbox).parked()),
        old(outbox).sent().len() <= k < final(outbox).sent().len() ==> final(outbox).sent()[k]
            == old(outbox).parked()[old(outbox).parked().len() - 1 - (k - old(
            outbox,
        ).sent().len())],
{
    let gone = old(outbox).parked().skip(final(outbox).parked().len() as int);
    assert(final(outbox).sent() == old(outbox).sent() + gone.reverse());
}

/// Where the ring does not take a retiree, it is parked while there is a place, and
/// let go of where there is none.
pub proof fn parking_has_its_places<T>(outbox: &mut Outbox<T>, retiree: T)
    requires
        call_ensures(Outbox::<T>::retire, (outbox, retiree), ()),
    ensures
        final(outbox).sent() == old(outbox).sent() || final(outbox).sent() == old(
            outbox,
        ).sent().push(retiree),
        final(outbox).sent() == old(outbox).sent() && old(outbox).parked().len() < old(
            outbox,
        ).places() ==> final(outbox).parked() == old(outbox).parked().push(retiree),
        old(outbox).parked().len() >= old(outbox).places() ==> final(outbox).parked() == old(
            outbox,
        ).parked(),
        old(outbox).parked().len() <= old(outbox).places() ==> final(outbox).parked().len()
            <= final(outbox).places(),
{
    assert(old(outbox).sent().push(retiree).len() == old(outbox).sent().len() + 1);
}

/// What a new engine has room for: 1024 commands and as many notes on the way in, 64
/// blocks of meters, 192000 samples of the monitor and 16 retirees on the way out,
/// and 8 places to park.
pub proof fn what_an_engine_has_room_for<D, G>(
    initial: Box<CompiledGraph<D>>,
    pair: (EngineHandle<D, G>, GraphEngine<D, G>),
)
    requires
        call_ensures(engine_pair::<D, G>, (initial,), pair),
    ensures
        pair.0.cmd_tx.room() == 1024,
        pair.0.midi_tx.room() == 1024,
        pair.1.meter_tx.room() == 64,
        pair.1.monitor_tx.room() == 192_000,
        pair.1.outbox.origin() matches Some(origin) && origin.capacity == 16,
        pair.1.outbox.places() == 8,
        pair.1.outbox.parked().len() == 0,
        pair.0.cmd_tx.origin() == pair.1.cmd_rx.origin(),
        pair.0.midi_tx.origin() == pair.1.midi_rx.origin(),
        pair.1.meter_tx.origin() == pair.0.meter_rx.origin(),
        pair.1.monitor_tx.origin() == pair.0.monitor_rx.origin(),
        pair.1.outbox.origin() == pair.0.retire_rx.origin(),
{
}

/// A block obeys at most 64 commands, and fewer only where no more were there.
pub proof fn how_much_a_block_obeys<D, G>(engine: &mut GraphEngine<D, G>)
    requires
        call_ensures(GraphEngine::<D, G>::begin_block, (engine,), ()),
    ensures
        ({
            let obeyed = final(engine).cmd_rx.taken().len() - old(engine).cmd_rx.taken().len();
            &&& 0 <= obeyed <= 64
            &&& obeyed < 64 ==> final(engine).cmd_rx.misses() == old(engine).cmd_rx.misses() + 1
            &&& obeyed == 64 ==> final(engine).cmd_rx.misses() == old(engine).cmd_rx.misses()
        }),
{
    let commands = final(engine).cmd_rx.taken().skip(old(engine).cmd_rx.taken().len() as int);
    assert(commands.len() == final(engine).cmd_rx.taken().len() - old(
        engine,
    ).cmd_rx.taken().len());
}

} // verus!
