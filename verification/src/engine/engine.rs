//! The audio thread's engine: obeys commands, keeps the clocks, puts the tape
//! return where it belongs, and hands back what it must not drop itself.
//!
//! The samples themselves are computed elsewhere, between `begin_block` and
//! `finish_chunk`.

use vstd::prelude::*;

use crate::console::instrument::CapturedMidi;
use crate::engine::compiled::CompiledGraph;
use crate::engine::compiled::EqCoeffs;
use crate::engine::compiled::GraphView;
use crate::engine::dispatch::eq_changed;
use crate::engine::dispatch::flag_switched;
use crate::engine::dispatch::param_moved;
use crate::engine::frame::lay_monitor;
use crate::engine::frame::monitor_laid;
use crate::engine::instrument::captures;
use crate::engine::instrument::discard;
use crate::engine::instrument::rack_played;
use crate::engine::instrument::width_before;
use crate::engine::instrument::Heard;
use crate::engine::instrument::InstrumentRack;
use crate::engine::instrument::MidiEvent;
use crate::engine::instrument::VoiceView;
use crate::engine::instrument::MIDI_RING_CAPACITY;
use crate::engine::outbox::lemma_carried_on;
use crate::engine::outbox::lemma_stood_still;
use crate::engine::outbox::let_go;
use crate::engine::outbox::Outbox;
use crate::engine::playback::retargeted;
use crate::engine::playback::PlaybackSet;
use crate::engine::playback::PlaybackShared;
use crate::engine::playback::PlaybackTold;
use crate::engine::playback::PlaybackTrack;
use crate::engine::playback::Pull;
use crate::engine::record::MidiCapture;
use crate::engine::record::RecordSet;
use crate::engine::record::RecordTrack;
use crate::engine::ring::ends_of_one_ring;
use crate::engine::ring::one_by_one;
use crate::engine::ring::ENDLESS;
use crate::engine::ring::ring;
use crate::engine::ring::Origin;
use crate::engine::ring::RingRx;
use crate::engine::ring::RingTx;
use crate::engine::rings::EqIx;
use crate::engine::rings::FlagIx;
use crate::engine::rings::MeterBlock;
use crate::engine::rings::MonitorTarget;
use crate::engine::rings::ParamIx;
use crate::engine::rings::CMD_RING_CAPACITY;
use crate::engine::rings::METER_RING_CAPACITY;
use crate::engine::rings::MONITOR_RING_CAPACITY;
use crate::engine::rings::RETIRE_RING_CAPACITY;
use crate::engine::slots::MAX_OUTPUT_CHANNELS;
use crate::single::Single;

verus! {

/// Commands that one block obeys. The rest waits for the next.
pub const MAX_CMDS_PER_BLOCK: usize = 64;

/// Retirees that the audio thread holds while their ring is full.
pub const MAX_PARKED: usize = 8;

/// From the control side to the audio thread.
pub enum EngineCommand<D, G> {
    SetParam { param: ParamIx, target: Single },
    SetFlag { flag: FlagIx, on: bool },
    SetEqCoeffs { eq: EqIx, coeffs: EqCoeffs },
    SwapGraph { graph: Box<CompiledGraph<D>> },
    SwapRack { rack: Box<InstrumentRack> },
    StartRecord { set: Box<RecordSet> },
    StopRecord,
    StartPlayback { set: Box<PlaybackSet<G>> },
    StopPlayback,
    SetPlaybackSolo { track: u16, on: bool },
    SetPlaybackMute { track: u16, on: bool },
    SetMonitorTarget { target: MonitorTarget },
}

/// What the audio thread hands back to be dropped elsewhere.
pub enum Retired<D, G> {
    Graph(Box<CompiledGraph<D>>),
    Rack(Box<InstrumentRack>),
    Record(Box<RecordSet>),
    Playback(Box<PlaybackSet<G>>),
}

/// What a MIDI capture holds.
#[verifier::ext_equal]
pub ghost struct CaptureView {
    pub offered: Seq<CapturedMidi>,
    /// What was offered to the ring, offer by offer.
    pub tried: Seq<Seq<CapturedMidi>>,
    pub recorded: Seq<CapturedMidi>,
    /// The ring, where it was made by this library.
    pub origin: Option<Origin>,
    pub lost: nat,
    pub start: u64,
}

/// What a record set holds.
#[verifier::ext_equal]
pub ghost struct RecordView {
    pub strip_tracks: Seq<Option<u16>>,
    pub master_track: Option<u16>,
    pub tracks: Seq<RecordTrack>,
    pub midi: Option<CaptureView>,
}

/// What a playback session holds.
#[verifier::ext_equal]
pub ghost struct PlaybackView<G> {
    pub tracks: Seq<PlaybackTrack<G>>,
    pub has_master: bool,
    pub shared: std::sync::Arc<PlaybackShared>,
    /// What the other threads were told.
    pub told: PlaybackTold,
}

/// What a rack holds.
#[verifier::ext_equal]
pub ghost struct RackView {
    pub voices: Seq<Option<VoiceView>>,
    pub widths: Seq<u8>,
}

/// What was handed back.
#[verifier::ext_equal]
pub ghost enum RetiredView<D, G> {
    Graph(GraphView, D),
    Rack(RackView),
    Record(RecordView),
    Playback(PlaybackView<G>),
}

pub open spec fn capture_view(midi: Option<Box<MidiCapture>>) -> Option<CaptureView> {
    match midi {
        Some(capture) => Some(
            CaptureView {
                offered: capture.offered(),
                tried: capture.tried(),
                recorded: capture.recorded(),
                origin: capture.origin(),
                lost: capture.lost(),
                start: capture.start(),
            },
        ),
        None => None,
    }
}

pub open spec fn record_view(set: RecordSet) -> RecordView {
    RecordView {
        strip_tracks: set.strip_tracks@,
        master_track: set.master_track,
        tracks: set.tracks@,
        midi: capture_view(set.midi),
    }
}

pub open spec fn playback_view<G>(set: PlaybackSet<G>) -> PlaybackView<G> {
    PlaybackView {
        tracks: set.tracks@,
        has_master: set.has_master,
        shared: set.shared,
        told: set.told@,
    }
}

pub open spec fn rack_view(rack: InstrumentRack) -> RackView {
    RackView { voices: rack@, widths: rack.widths@ }
}

pub open spec fn retired_view<D, G>(retired: Retired<D, G>) -> RetiredView<D, G> {
    match retired {
        Retired::Graph(graph) => RetiredView::Graph(graph@, graph.dsp),
        Retired::Rack(rack) => RetiredView::Rack(rack_view(*rack)),
        Retired::Record(set) => RetiredView::Record(record_view(*set)),
        Retired::Playback(set) => RetiredView::Playback(playback_view(*set)),
    }
}

/// What an engine holds.
#[verifier::ext_equal]
pub ghost struct EngineView<D, G> {
    pub graph: GraphView,
    pub dsp: D,
    pub rack: RackView,
    pub record: Option<RecordView>,
    pub playback: Option<PlaybackView<G>>,
    pub monitor: MonitorTarget,
    /// Blocks since the engine started.
    pub frame: u64,
    /// Frames since the engine started.
    pub sample_frame: u64,
    /// Everything that the engine let go of, in order.
    pub handed: Seq<RetiredView<D, G>>,
    /// What the engine offered to the control side's meters, offer by offer.
    pub metered: Seq<Seq<MeterBlock>>,
    /// What the engine offered to the monitor stream, offer by offer.
    pub streamed: Seq<Seq<Single>>,
}

/// A rack whose voices were all told to release.
pub open spec fn released(rack: RackView) -> RackView {
    RackView {
        voices: Seq::new(
            rack.voices.len(),
            |i: int|
                match rack.voices[i] {
                    Some(voice) => Some(
                        VoiceView { heard: voice.heard.push(Heard::Release), ..voice },
                    ),
                    None => None,
                },
        ),
        ..rack
    }
}

/// A record set whose take starts here.
pub open spec fn stamped(set: RecordView, sample_frame: u64) -> RecordView {
    RecordView {
        midi: match set.midi {
            Some(midi) => Some(CaptureView { start: sample_frame, ..midi }),
            None => None,
        },
        ..set
    }
}

/// The lanes of a session after a solo.
pub open spec fn soloed<G>(set: PlaybackView<G>, track: u16, on: bool) -> PlaybackView<G> {
    if track < set.tracks.len() {
        let lane = PlaybackTrack { solo: on, ..set.tracks[track as int] };
        PlaybackView {
            tracks: retargeted(set.tracks.update(track as int, lane), set.has_master),
            ..set
        }
    } else {
        set
    }
}

/// The lanes of a session after a mute.
pub open spec fn muted<G>(set: PlaybackView<G>, track: u16, on: bool) -> PlaybackView<G> {
    if track < set.tracks.len() {
        let lane = PlaybackTrack { mute: on, ..set.tracks[track as int] };
        PlaybackView {
            tracks: retargeted(set.tracks.update(track as int, lane), set.has_master),
            ..set
        }
    } else {
        set
    }
}

/// The engine after it has let go of the take, if it held one.
pub open spec fn without_record<D, G>(e: EngineView<D, G>) -> EngineView<D, G> {
    match e.record {
        Some(set) => EngineView {
            record: None,
            handed: e.handed.push(RetiredView::Record(set)),
            ..e
        },
        None => e,
    }
}

/// The engine after it has let go of the tape return, if it held one.
pub open spec fn without_playback<D, G>(e: EngineView<D, G>) -> EngineView<D, G> {
    match e.playback {
        Some(set) => EngineView {
            playback: None,
            handed: e.handed.push(RetiredView::Playback(set)),
            ..e
        },
        None => e,
    }
}

/// The engine after a tape return has played so many frames.
pub open spec fn rolled_on<D, G>(e: EngineView<D, G>, frames: int) -> EngineView<D, G> {
    match e.playback {
        Some(set) => EngineView {
            playback: Some(
                PlaybackView {
                    told: PlaybackTold { frames: set.told.frames + frames, ..set.told },
                    ..set
                },
            ),
            ..e
        },
        None => e,
    }
}

/// The engine after one command.
pub open spec fn obeyed<D, G>(e: EngineView<D, G>, command: EngineCommand<D, G>) -> EngineView<
    D,
    G,
> {
    match command {
        EngineCommand::SetParam { param, target } => EngineView {
            graph: param_moved(e.graph, param, target),
            ..e
        },
        EngineCommand::SetFlag { flag, on } => EngineView {
            graph: flag_switched(e.graph, flag, on),
            ..e
        },
        EngineCommand::SetEqCoeffs { eq, coeffs } => EngineView {
            graph: eq_changed(e.graph, eq, coeffs),
            ..e
        },
        EngineCommand::SwapGraph { graph } => EngineView {
            graph: graph@,
            dsp: graph.dsp,
            handed: e.handed.push(RetiredView::Graph(e.graph, e.dsp)),
            ..e
        },
        EngineCommand::SwapRack { rack } => EngineView {
            rack: rack_view(*rack),
            handed: e.handed.push(RetiredView::Rack(released(e.rack))),
            ..e
        },
        EngineCommand::StartRecord { set } => EngineView {
            record: Some(stamped(record_view(*set), e.sample_frame)),
            ..without_record(e)
        },
        EngineCommand::StopRecord => without_record(e),
        EngineCommand::StartPlayback { set } => EngineView {
            playback: Some(playback_view(*set)),
            ..without_playback(e)
        },
        EngineCommand::StopPlayback => without_playback(e),
        EngineCommand::SetPlaybackSolo { track, on } => EngineView {
            playback: match e.playback {
                Some(set) => Some(soloed(set, track, on)),
                None => None,
            },
            ..e
        },
        EngineCommand::SetPlaybackMute { track, on } => EngineView {
            playback: match e.playback {
                Some(set) => Some(muted(set, track, on)),
                None => None,
            },
            ..e
        },
        EngineCommand::SetMonitorTarget { target } => EngineView { monitor: target, ..e },
    }
}

/// The engine after the first `n` commands.
pub open spec fn obeyed_all<D, G>(
    e: EngineView<D, G>,
    commands: Seq<EngineCommand<D, G>>,
    n: int,
) -> EngineView<D, G>
    decreases n,
{
    if n <= 0 {
        e
    } else {
        obeyed(obeyed_all(e, commands, n - 1), commands[n - 1])
    }
}

/// What a chunk ends with.
pub ghost struct ChunkEnd {
    /// The frames of the chunk.
    pub chunk: usize,
    pub peak: [Single; 64],
    pub clip_bits: u64,
    /// The frames of the tape return.
    pub tape: Seq<Single>,
    /// What the tape return came to, if there is one.
    pub pull: Option<Pull>,
}

/// The meters of a chunk.
pub open spec fn meters<D, G>(e: EngineView<D, G>, end: ChunkEnd) -> MeterBlock {
    MeterBlock {
        frame: e.frame,
        count: e.graph.meter_count as u8,
        peak: end.peak,
        clip_bits: end.clip_bits,
    }
}

/// The engine after a chunk: its meters are offered, a tape that has run out is let
/// go of, a tape for the stream monitor is offered to it, and the clocks have moved
/// on.
pub open spec fn finished<D, G>(e: EngineView<D, G>, end: ChunkEnd) -> EngineView<D, G> {
    let rest = match end.pull {
        Some(Pull::Finished) => without_playback(e),
        Some(Pull::Frames(n)) => rolled_on(e, n as int),
        None => e,
    };
    EngineView {
        frame: (e.frame + 1) as u64,
        sample_frame: (e.sample_frame + end.chunk) as u64,
        metered: e.metered.push(seq![meters(e, end)]),
        streamed: match (end.pull, e.monitor) {
            (Some(Pull::Frames(n)), MonitorTarget::Stream) => e.streamed + one_by_one(
                end.tape.take(2 * n),
            ),
            _ => e.streamed,
        },
        ..rest
    }
}

/// The plane after a chunk: a tape for the hardware monitor takes over the monitor
/// pair, unless it has just run out.
pub open spec fn tape_laid(
    plane: Seq<Single>,
    monitor: MonitorTarget,
    done: int,
    end: ChunkEnd,
) -> Seq<Single> {
    match (end.pull, monitor) {
        (Some(Pull::Frames(_)), MonitorTarget::Hardware) => monitor_laid(
            plane,
            done,
            end.tape,
            end.chunk as int,
        ),
        _ => plane,
    }
}

/// The frames of the next chunk: what is left, up to a whole block.
pub open spec fn chunk_frames(frames: int, block_size: int, done: int) -> int {
    if frames - done < block_size {
        frames - done
    } else {
        block_size
    }
}

/// The control side's end of the rings.
#[verifier::reject_recursive_types(D)]
#[verifier::reject_recursive_types(G)]
pub struct EngineHandle<D, G> {
    pub cmd_tx: RingTx<EngineCommand<D, G>>,
    pub meter_rx: RingRx<MeterBlock>,
    pub retire_rx: RingRx<Retired<D, G>>,
    pub monitor_rx: RingRx<Single>,
    pub midi_tx: RingTx<MidiEvent>,
}

/// The audio side.
#[verifier::reject_recursive_types(D)]
#[verifier::reject_recursive_types(G)]
pub struct GraphEngine<D, G> {
    pub graph: Box<CompiledGraph<D>>,
    pub rack: Box<InstrumentRack>,
    pub midi_rx: RingRx<MidiEvent>,
    pub record: Option<Box<RecordSet>>,
    pub playback: Option<Box<PlaybackSet<G>>>,
    pub monitor: MonitorTarget,
    pub monitor_tx: RingTx<Single>,
    pub frame: u64,
    pub sample_frame: u64,
    pub cmd_rx: RingRx<EngineCommand<D, G>>,
    pub meter_tx: RingTx<MeterBlock>,
    pub outbox: Outbox<Retired<D, G>>,
}

impl<D, G> View for GraphEngine<D, G> {
    type V = EngineView<D, G>;

    open spec fn view(&self) -> EngineView<D, G> {
        EngineView {
            graph: self.graph@,
            dsp: self.graph.dsp,
            rack: rack_view(*self.rack),
            record: match self.record {
                Some(set) => Some(record_view(*set)),
                None => None,
            },
            playback: match self.playback {
                Some(set) => Some(playback_view(*set)),
                None => None,
            },
            monitor: self.monitor,
            frame: self.frame,
            sample_frame: self.sample_frame,
            handed: self.outbox.entrusted().map_values(|r: Retired<D, G>| retired_view(r)),
            metered: self.meter_tx.offered(),
            streamed: self.monitor_tx.offered(),
        }
    }
}

impl<D, G> GraphEngine<D, G> {
    /// Lets go of something that must not be dropped here.
    fn retire(&mut self, retiree: Retired<D, G>)
        ensures
            let_go(
                old(self).outbox.sent(),
                old(self).outbox.parked(),
                final(self).outbox.sent(),
                final(self).outbox.parked(),
                old(self).outbox.places(),
                retiree,
            ),
            final(self)@ == (EngineView {
                handed: old(self)@.handed.push(retired_view(retiree)),
                ..old(self)@
            }),
            final(self).cmd_rx == old(self).cmd_rx,
            final(self).midi_rx == old(self).midi_rx,
            final(self).meter_tx == old(self).meter_tx,
            final(self).monitor_tx == old(self).monitor_tx,
            final(self).outbox.carried_on(&old(self).outbox),
    {
        let ghost before = self@;
        let ghost note = retired_view(retiree);
        self.outbox.retire(retiree);
        assert(self@.handed =~= before.handed.push(note));
    }

    /// Obeys one command.
    fn obey(&mut self, command: EngineCommand<D, G>)
        ensures
            final(self)@ == obeyed(old(self)@, command),
            final(self).cmd_rx == old(self).cmd_rx,
            final(self).midi_rx == old(self).midi_rx,
            final(self).meter_tx == old(self).meter_tx,
            final(self).monitor_tx == old(self).monitor_tx,
            final(self).outbox.carried_on(&old(self).outbox),
    {
        let ghost before = self@;
        proof {
            lemma_stood_still(self.outbox);
        }
        match command {
            EngineCommand::SetParam { param, target } => {
                self.graph.set_param(param, target);
            },
            EngineCommand::SetFlag { flag, on } => {
                self.graph.set_flag(flag, on);
            },
            EngineCommand::SetEqCoeffs { eq, coeffs } => {
                self.graph.set_eq_coeffs(eq, coeffs);
            },
            EngineCommand::SwapGraph { graph } => {
                let mut outgoing = graph;
                std::mem::swap(&mut self.graph, &mut outgoing);
                self.retire(Retired::Graph(outgoing));
            },
            EngineCommand::SwapRack { rack } => {
                let mut outgoing = rack;
                std::mem::swap(&mut self.rack, &mut outgoing);
                outgoing.all_notes_off();
                assert(rack_view(*outgoing) =~= released(before.rack));
                self.retire(Retired::Rack(outgoing));
            },
            EngineCommand::StartRecord { set } => {
                let mut incoming = set;
                if let Some(midi) = &mut incoming.midi {
                    midi.start_at(self.sample_frame);
                }
                assert(record_view(*incoming) =~= stamped(record_view(*set), before.sample_frame));
                let mut outgoing = Some(incoming);
                std::mem::swap(&mut self.record, &mut outgoing);
                if let Some(old_set) = outgoing {
                    self.retire(Retired::Record(old_set));
                }
            },
            EngineCommand::StopRecord => {
                let mut outgoing: Option<Box<RecordSet>> = None;
                std::mem::swap(&mut self.record, &mut outgoing);
                if let Some(set) = outgoing {
                    self.retire(Retired::Record(set));
                }
            },
            EngineCommand::StartPlayback { set } => {
                let mut outgoing = Some(set);
                std::mem::swap(&mut self.playback, &mut outgoing);
                if let Some(old_set) = outgoing {
                    self.retire(Retired::Playback(old_set));
                }
            },
            EngineCommand::StopPlayback => {
                self.end_playback();
            },
            EngineCommand::SetPlaybackSolo { track, on } => {
                if let Some(set) = &mut self.playback {
                    set.set_solo(track, on);
                }
            },
            EngineCommand::SetPlaybackMute { track, on } => {
                if let Some(set) = &mut self.playback {
                    set.set_mute(track, on);
                }
            },
            EngineCommand::SetMonitorTarget { target } => {
                self.monitor = target;
            },
        }
        assert(self@ =~= obeyed(before, command));
    }

    /// Lets go of the tape return, if there is one.
    fn end_playback(&mut self)
        ensures
            final(self)@ == without_playback(old(self)@),
            final(self).cmd_rx == old(self).cmd_rx,
            final(self).midi_rx == old(self).midi_rx,
            final(self).meter_tx == old(self).meter_tx,
            final(self).monitor_tx == old(self).monitor_tx,
            final(self).outbox.carried_on(&old(self).outbox),
    {
        let ghost before = self@;
        proof {
            lemma_stood_still(self.outbox);
        }
        let mut outgoing: Option<Box<PlaybackSet<G>>> = None;
        std::mem::swap(&mut self.playback, &mut outgoing);
        if let Some(set) = outgoing {
            self.retire(Retired::Playback(set));
        }
        assert(self@ =~= without_playback(before));
    }

    /// Obeys what is waiting, up to one block's worth.
    fn drain_commands(&mut self)
        ensures
            final(self).cmd_rx.origin() == old(self).cmd_rx.origin(),
            old(self).cmd_rx.taken().is_prefix_of(final(self).cmd_rx.taken()),
            ({
                let commands = final(self).cmd_rx.taken().skip(
                    old(self).cmd_rx.taken().len() as int,
                );
                &&& commands.len() <= MAX_CMDS_PER_BLOCK
                &&& final(self).cmd_rx.misses() == old(self).cmd_rx.misses() + if commands.len()
                    < MAX_CMDS_PER_BLOCK {
                    1nat
                } else {
                    0nat
                }
                &&& final(self)@ == obeyed_all(old(self)@, commands, commands.len() as int)
            }),
            final(self).midi_rx == old(self).midi_rx,
            final(self).meter_tx == old(self).meter_tx,
            final(self).monitor_tx == old(self).monitor_tx,
            final(self).outbox.carried_on(&old(self).outbox),
    {
        let ghost first = *self;
        proof {
            lemma_stood_still(self.outbox);
        }
        let ghost history = self.cmd_rx.taken();
        let ghost misses = self.cmd_rx.misses();
        let ghost mut commands: Seq<EngineCommand<D, G>> = Seq::empty();
        let mut left: usize = MAX_CMDS_PER_BLOCK;
        assert(history + commands =~= history);
        while left > 0
            invariant
                left + commands.len() <= MAX_CMDS_PER_BLOCK,
                left + commands.len() < MAX_CMDS_PER_BLOCK ==> left == 0,
                self.cmd_rx.misses() == misses + if left + commands.len() < MAX_CMDS_PER_BLOCK {
                    1nat
                } else {
                    0nat
                },
                self.cmd_rx.taken() == history + commands,
                self@ == obeyed_all(first@, commands, commands.len() as int),
                self.cmd_rx.origin() == first.cmd_rx.origin(),
                self.midi_rx == first.midi_rx,
                self.meter_tx == first.meter_tx,
                self.monitor_tx == first.monitor_tx,
                self.outbox.carried_on(&first.outbox),
            decreases left,
        {
            let ghost before = self@;
            let ghost box_before = self.outbox;
            match self.cmd_rx.pop() {
                None => {
                    left = 0;
                },
                Some(command) => {
                    assert(self@ == before);
                    self.obey(command);
                    proof {
                        lemma_carried_on(first.outbox, box_before, self.outbox);
                        lemma_obeyed_prefix(first@, commands, command, commands.len() as int);
                        assert(self.cmd_rx.taken() =~= history + commands.push(command));
                        commands = commands.push(command);
                        assert(commands[commands.len() - 1] == command);
                    }
                    left = left - 1;
                },
            }
        }
        assert(self.cmd_rx.taken().skip(history.len() as int) =~= commands);
    }

    /// What a callback starts with: the waiting commands, then the parked.
    pub fn begin_block(&mut self)
        ensures
            final(self).cmd_rx.origin() == old(self).cmd_rx.origin(),
            old(self).cmd_rx.taken().is_prefix_of(final(self).cmd_rx.taken()),
            ({
                let commands = final(self).cmd_rx.taken().skip(
                    old(self).cmd_rx.taken().len() as int,
                );
                &&& commands.len() <= MAX_CMDS_PER_BLOCK
                &&& final(self).cmd_rx.misses() == old(self).cmd_rx.misses() + if commands.len()
                    < MAX_CMDS_PER_BLOCK {
                    1nat
                } else {
                    0nat
                }
                &&& final(self)@ == obeyed_all(old(self)@, commands, commands.len() as int)
            }),
            final(self).midi_rx == old(self).midi_rx,
            final(self).meter_tx == old(self).meter_tx,
            final(self).monitor_tx == old(self).monitor_tx,
            final(self).outbox.carried_on(&old(self).outbox),
            final(self).outbox.cleared(),
    {
        let ghost first = self.outbox;
        self.drain_commands();
        let ghost obeyed = self.outbox;
        self.outbox.flush();
        proof {
            lemma_carried_on(first, obeyed, self.outbox);
        }
    }

    /// The frames of the next chunk: what is left, up to a whole block.
    pub fn next_chunk(&self, frames: usize, done: usize) -> (chunk: usize)
        requires
            done <= frames,
        ensures
            chunk == chunk_frames(frames as int, self@.graph.block_size as int, done as int),
    {
        let left: usize = frames - done;
        if left < self.graph.block_size {
            left
        } else {
            self.graph.block_size
        }
    }
}

/// Where in the take the next MIDI events are stamped: the chunk's position in
/// it, and the frames of the chunk that are already rendered.
pub open spec fn stamp<D, G>(e: EngineView<D, G>, rendered: u64) -> int {
    match e.record {
        Some(set) => match set.midi {
            Some(midi) => if e.sample_frame > midi.start {
                e.sample_frame - midi.start + rendered
            } else {
                rendered as int
            },
            None => 0,
        },
        None => 0,
    }
}

impl<D, G> GraphEngine<D, G> {
    /// Applies the waiting MIDI events to the rack, and captures what they
    /// played while a take is recorded. A rack without channels plays nothing.
    pub fn apply_midi(&mut self, rendered: u64)
        requires
            old(self)@.sample_frame + rendered <= u64::MAX,
        ensures
            final(self).midi_rx.origin() == old(self).midi_rx.origin(),
            old(self).midi_rx.taken().is_prefix_of(final(self).midi_rx.taken()),
            ({
                let events = final(self).midi_rx.taken().skip(
                    old(self).midi_rx.taken().len() as int,
                );
                let rack = old(self)@.rack;
                let at = stamp(old(self)@, rendered) as u64;
                &&& events.len() < ENDLESS ==> final(self).midi_rx.misses() == old(
                    self,
                ).midi_rx.misses() + 1
                &&& if width_before(rack.widths, rack.widths.len() as int) == 0 {
                    final(self)@ == old(self)@
                } else {
                    &&& final(self)@ == (EngineView {
                        rack: RackView {
                            voices: rack_played(rack.voices, events, events.len() as int),
                            ..rack
                        },
                        record: final(self)@.record,
                        ..old(self)@
                    })
                    &&& record_captured(
                        old(self)@.record,
                        final(self)@.record,
                        captures(rack.voices, events, at, events.len() as int),
                    )
                }
            }),
            final(self).cmd_rx == old(self).cmd_rx,
            final(self).meter_tx == old(self).meter_tx,
            final(self).monitor_tx == old(self).monitor_tx,
            final(self).outbox == old(self).outbox,
    {
        let ghost before = self@;
        if !self.rack.has_channels() {
            discard(&mut self.midi_rx);
            return;
        }
        let at: u64 = match &self.record {
            Some(set) => match &set.midi {
                Some(midi) => midi.elapsed(self.sample_frame) + rendered,
                None => 0,
            },
            None => 0,
        };
        assert(at == stamp(before, rendered));
        match &mut self.record {
            Some(set) => {
                self.rack.drain(&mut self.midi_rx, &mut set.midi, at);
            },
            None => {
                let mut nowhere: Option<Box<MidiCapture>> = None;
                self.rack.drain(&mut self.midi_rx, &mut nowhere, at);
            },
        }
    }

    /// Ends a chunk: offers its meters, puts the tape return where the monitor
    /// wants it, lets go of a tape that has run out, and moves the clocks on.
    ///
    /// On the hardware monitor the tape takes over the monitor pair, except
    /// when it has just run out: then the live mix stays. On the stream monitor
    /// it goes down the monitor ring.
    pub fn finish_chunk(
        &mut self,
        plane: &mut Vec<Single>,
        done: usize,
        chunk: usize,
        peak: [Single; 64],
        clip_bits: u64,
        tape: &Vec<Single>,
        pull: Option<Pull>,
    )
        requires
            old(self)@.frame < u64::MAX,
            old(self)@.sample_frame + chunk <= u64::MAX,
            (done + chunk) * MAX_OUTPUT_CHANNELS <= old(plane)@.len(),
            2 * chunk <= tape@.len(),
            pull matches Some(Pull::Frames(n)) ==> n <= chunk,
        ensures
            ({
                let end = ChunkEnd { chunk, peak, clip_bits, tape: tape@, pull };
                let sent = old(self).meter_tx.sent();
                let sent_now = final(self).meter_tx.sent();
                &&& final(self)@ == finished(old(self)@, end)
                &&& final(plane)@ == tape_laid(old(plane)@, old(self)@.monitor, done as int, end)
                &&& sent_now == sent || sent_now == sent.push(meters(old(self)@, end))
            }),
            final(self).cmd_rx == old(self).cmd_rx,
            final(self).midi_rx == old(self).midi_rx,
            final(self).outbox.carried_on(&old(self).outbox),
            final(self).meter_tx.origin() == old(self).meter_tx.origin(),
            final(self).monitor_tx.origin() == old(self).monitor_tx.origin(),
            old(self).monitor_tx.sent().is_prefix_of(final(self).monitor_tx.sent()),
            !(pull matches Some(Pull::Frames(_)) && old(self)@.monitor == MonitorTarget::Stream)
                ==> final(self).monitor_tx == old(self).monitor_tx,
    {
        let ghost before = self@;
        proof {
            lemma_stood_still(self.outbox);
        }
        let length: usize = tape.len();
        let block = MeterBlock {
            frame: self.frame,
            count: self.graph.meter_count() as u8,
            peak,
            clip_bits,
        };
        let offered: Result<(), MeterBlock> = self.meter_tx.push(block);
        match pull {
            Some(Pull::Frames(n)) => {
                if let Some(set) = &mut self.playback {
                    set.advance(n as u64);
                }
                match self.monitor {
                    MonitorTarget::Hardware => {
                        lay_monitor(plane, done, chunk, tape);
                    },
                    MonitorTarget::Stream => {
                        assert(2 * n <= length);
                        self.stream(tape, 2 * n);
                    },
                }
            },
            Some(Pull::Finished) => {
                self.end_playback();
            },
            None => {},
        }
        self.frame = self.frame + 1;
        self.sample_frame = self.sample_frame + chunk as u64;
    }

    /// Offers the first samples of a buffer to the monitor stream. What does
    /// not fit is dropped.
    fn stream(&mut self, tape: &Vec<Single>, samples: usize)
        requires
            samples <= tape@.len(),
        ensures
            final(self)@ == (EngineView {
                streamed: old(self)@.streamed + one_by_one(tape@.take(samples as int)),
                ..old(self)@
            }),
            final(self).cmd_rx == old(self).cmd_rx,
            final(self).midi_rx == old(self).midi_rx,
            final(self).meter_tx == old(self).meter_tx,
            final(self).outbox == old(self).outbox,
            final(self).monitor_tx.origin() == old(self).monitor_tx.origin(),
            old(self).monitor_tx.sent().is_prefix_of(final(self).monitor_tx.sent()),
    {
        let ghost first = *self;
        let mut i: usize = 0;
        assert(first@.streamed + one_by_one(tape@.take(0)) =~= first@.streamed);
        while i < samples
            invariant
                i <= samples <= tape@.len(),
                self@ == (EngineView {
                    streamed: first@.streamed + one_by_one(tape@.take(i as int)),
                    ..first@
                }),
                self.cmd_rx == first.cmd_rx,
                self.midi_rx == first.midi_rx,
                self.meter_tx == first.meter_tx,
                self.outbox == first.outbox,
                self.monitor_tx.origin() == first.monitor_tx.origin(),
                first.monitor_tx.sent().is_prefix_of(self.monitor_tx.sent()),
            decreases samples - i,
        {
            let offered: Result<(), Single> = self.monitor_tx.push(tape[i]);
            assert(first@.streamed + one_by_one(tape@.take(i + 1)) =~= (first@.streamed
                + one_by_one(tape@.take(i as int))).push(seq![tape@[i as int]]));
            i = i + 1;
        }
    }
}

/// Whether a take was given exactly these events more, and is otherwise the
/// same.
pub open spec fn record_captured(
    before: Option<RecordView>,
    after: Option<RecordView>,
    entries: Seq<CapturedMidi>,
) -> bool {
    match (before, after) {
        (Some(a), Some(b)) => {
            &&& b.strip_tracks == a.strip_tracks
            &&& b.master_track == a.master_track
            &&& b.tracks == a.tracks
            &&& match (a.midi, b.midi) {
                (Some(x), Some(y)) => {
                    &&& y.offered == x.offered + entries
                    &&& y.tried == x.tried + one_by_one(entries)
                    &&& x.recorded.is_prefix_of(y.recorded)
                    &&& y.recorded.len() + y.lost == x.recorded.len() + x.lost + entries.len()
                    &&& y.origin == x.origin
                    &&& y.start == x.start
                },
                (None, None) => true,
                _ => false,
            }
        },
        (None, None) => true,
        _ => false,
    }
}

proof fn lemma_obeyed_prefix<D, G>(
    e: EngineView<D, G>,
    commands: Seq<EngineCommand<D, G>>,
    more: EngineCommand<D, G>,
    n: int,
)
    requires
        0 <= n <= commands.len(),
    ensures
        obeyed_all(e, commands, n) == obeyed_all(e, commands.push(more), n),
    decreases n,
{
    if n > 0 {
        lemma_obeyed_prefix(e, commands, more, n - 1);
    }
}

/// An engine and its control-side handle around a first graph.
pub fn engine_pair<D, G>(initial: Box<CompiledGraph<D>>) -> (pair: (
    EngineHandle<D, G>,
    GraphEngine<D, G>,
))
    ensures
        pair.1@ == (EngineView::<D, G> {
            graph: initial@,
            dsp: initial.dsp,
            rack: RackView { voices: Seq::empty(), widths: Seq::empty() },
            record: None,
            playback: None,
            monitor: MonitorTarget::Hardware,
            frame: 0,
            sample_frame: 0,
            handed: Seq::empty(),
            metered: Seq::empty(),
            streamed: Seq::empty(),
        }),
        ends_of_one_ring(pair.0.cmd_tx, pair.1.cmd_rx, CMD_RING_CAPACITY),
        ends_of_one_ring(pair.0.midi_tx, pair.1.midi_rx, MIDI_RING_CAPACITY),
        ends_of_one_ring(pair.1.meter_tx, pair.0.meter_rx, METER_RING_CAPACITY),
        ends_of_one_ring(pair.1.monitor_tx, pair.0.monitor_rx, MONITOR_RING_CAPACITY),
        pair.1.outbox.origin() is Some,
        pair.1.outbox.origin()->0.capacity == RETIRE_RING_CAPACITY,
        pair.0.retire_rx.origin() == pair.1.outbox.origin(),
        pair.0.cmd_tx.room() == CMD_RING_CAPACITY,
        pair.0.midi_tx.room() == MIDI_RING_CAPACITY,
        pair.1.meter_tx.room() == METER_RING_CAPACITY,
        pair.1.monitor_tx.room() == MONITOR_RING_CAPACITY,
        pair.1.outbox.parked() == Seq::<Retired<D, G>>::empty(),
        pair.1.outbox.places() == MAX_PARKED,
        pair.1.cmd_rx.taken() == Seq::<EngineCommand<D, G>>::empty(),
        pair.1.midi_rx.taken() == Seq::<MidiEvent>::empty(),
        pair.1.outbox.sent() == Seq::<Retired<D, G>>::empty(),
        pair.1.meter_tx.sent() == Seq::<MeterBlock>::empty(),
        pair.1.monitor_tx.sent() == Seq::<Single>::empty(),
        pair.0.cmd_tx.sent() == Seq::<EngineCommand<D, G>>::empty(),
        pair.0.midi_tx.sent() == Seq::<MidiEvent>::empty(),
        pair.0.retire_rx.taken() == Seq::<Retired<D, G>>::empty(),
        pair.0.meter_rx.taken() == Seq::<MeterBlock>::empty(),
        pair.0.monitor_rx.taken() == Seq::<Single>::empty(),
{
    let (cmd_tx, cmd_rx) = ring::<EngineCommand<D, G>>(CMD_RING_CAPACITY);
    let (meter_tx, meter_rx) = ring::<MeterBlock>(METER_RING_CAPACITY);
    let (retire_tx, retire_rx) = ring::<Retired<D, G>>(RETIRE_RING_CAPACITY);
    let (monitor_tx, monitor_rx) = ring::<Single>(MONITOR_RING_CAPACITY);
    let (midi_tx, midi_rx) = ring::<MidiEvent>(MIDI_RING_CAPACITY);
    let rack = Box::new(InstrumentRack::default());
    let engine = GraphEngine {
        graph: initial,
        rack,
        midi_rx,
        record: None,
        playback: None,
        monitor: MonitorTarget::Hardware,
        monitor_tx,
        frame: 0,
        sample_frame: 0,
        cmd_rx,
        meter_tx,
        outbox: Outbox::new(retire_tx, MAX_PARKED),
    };
    assert(engine@.handed =~= Seq::empty());
    (EngineHandle { cmd_tx, meter_rx, retire_rx, monitor_rx, midi_tx }, engine)
}

/// However the commands are spread over blocks, the engine ends up the same:
/// obeying the first `m` and then the rest is obeying them all.
pub proof fn commands_may_be_split_over_blocks<D, G>(
    e: EngineView<D, G>,
    commands: Seq<EngineCommand<D, G>>,
    m: int,
    n: int,
)
    requires
        0 <= m <= n <= commands.len(),
    ensures
        obeyed_all(e, commands, n) == obeyed_all(
            obeyed_all(e, commands, m),
            commands.skip(m),
            n - m,
        ),
    decreases n,
{
    if m < n {
        commands_may_be_split_over_blocks(e, commands, m, n - 1);
        assert(commands.skip(m)[n - m - 1] == commands[n - 1]);
    }
}

} // verus!
