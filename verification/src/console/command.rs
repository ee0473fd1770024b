//! The commands that change the console, and what they report.

use vstd::prelude::*;

use crate::console::bus::BusKind;
use crate::console::bus::BusState;
use crate::console::bus::BusView;
use crate::console::eq::EqBandKind;
use crate::console::fx::FxParams;
use crate::console::id::BusId;
use crate::console::id::FxId;
use crate::console::id::InstrumentId;
use crate::console::id::StripId;
use crate::console::instrument::InstrumentSplit;
use crate::console::instrument::InstrumentState;
use crate::console::instrument::InstrumentView;
use crate::console::output::JackView;
use crate::console::output::OutputJack;
use crate::console::output::OutputPatch;
use crate::console::output::PatchView;
use crate::console::strip::input_of;
use crate::console::strip::InputAssign;
use crate::console::strip::InputView;
use crate::console::strip::RouteTarget;
use crate::console::strip::SendTap;
use crate::console::strip::StripState;
use crate::console::strip::StripView;
use crate::seqs::views;
use crate::single::Single;

verus! {

/// Longest accepted name, in bytes: it has to fit on the tape.
pub const MAX_NAME_LEN: usize = 60;

/// Strips the console holds.
pub const MAX_STRIPS: usize = 32;

/// Instruments the rack holds.
pub const MAX_INSTRUMENTS: usize = 8;

/// Below this many voices a chord eats itself.
pub const MIN_POLYPHONY: u16 = 4;

/// Past this many voices a small machine runs out of core.
pub const MAX_POLYPHONY: u16 = 256;

/// Which fader a level command addresses; also the target of mutes, PFL,
/// renames and record arms.
#[derive(Debug, Clone, Copy, PartialEq, Eq, Hash, Structural)]
#[allow(inconsistent_fields)]
pub enum FaderTarget {
    Strip { id: StripId },
    Bus { id: BusId },
    Master,
}

/// A mutation of the console document.
#[derive(Debug, Clone, PartialEq)]
#[allow(inconsistent_fields)]
pub enum MixCommand {
    SetFader { target: FaderTarget, level_db: Single },
    SetGain { strip: StripId, gain_db: Single },
    SetEqBand {
        strip: StripId,
        band: EqBandKind,
        freq_hz: Single,
        gain_db: Single,
        q: Single,
    },
    SetEqEnabled { strip: StripId, enabled: bool },
    SetPan { strip: StripId, pan: Single },
    SetMute { target: FaderTarget, mute: bool },
    SetPfl { target: FaderTarget, on: bool },
    SetInput { strip: StripId, input: Option<InputAssign> },
    Rename { target: FaderTarget, name: String },
    AddStrip { name: Option<String> },
    RemoveStrip { id: StripId },
    /// Set one aux send, adding it where the strip has none toward that bus.
    SetSend { strip: StripId, dest: BusId, level_db: Single, tap: SendTap },
    /// Where the strip's main signal goes: the master or a group bus.
    SetRoute { strip: StripId, to: RouteTarget },
    SetFxParams { fx: FxId, params: FxParams },
    SetFxReturn { fx: FxId, level_db: Single },
    AddBus { kind: BusKind, name: Option<String> },
    RemoveBus { id: BusId },
    /// Arm a strip or the master for the next take.
    SetRecordArm { target: FaderTarget, armed: bool },
    /// Arm or disarm every strip at once; the master is left alone.
    SetRecordArmAll { armed: bool },
    AddInstrument { name: Option<String> },
    RemoveInstrument { id: InstrumentId },
    /// What a synthesiser takes only at construction.
    SetInstrumentVoice {
        id: InstrumentId,
        soundfont: Option<String>,
        polyphony: u16,
        effects: bool,
    },
    /// What a running synthesiser accepts.
    SetInstrumentPerformance {
        id: InstrumentId,
        name: String,
        bank: u16,
        program: u8,
        port: Option<String>,
        midi_channel: Option<u8>,
    },
    /// How an instrument reaches the desk: one stereo pair, or a fader per
    /// named piece.
    SetInstrumentSplits { id: InstrumentId, splits: Vec<InstrumentSplit> },
    /// Put every one of an instrument's channels on the desk that is not
    /// there yet.
    AddInstrumentStrips { id: InstrumentId },
    /// Patch one output channel. A jack holds one patch, so patching an
    /// occupied jack replaces what was there.
    SetOutputPatch { patch: OutputPatch },
    /// Unpatch one output channel.
    ClearOutputPatch { jack: OutputJack },
    /// Move a patch's tap and nothing else.
    SetOutputTap { jack: OutputJack, tap: SendTap },
}

impl MixCommand {
    /// Whether the tape refuses this command while it is rolling: it moves
    /// what a record tap is bound to, or costs a graph swap.
    pub open spec fn reshapes(self) -> bool {
        match self {
            MixCommand::AddStrip { .. }
            | MixCommand::RemoveStrip { .. }
            | MixCommand::SetInput { .. }
            | MixCommand::SetRoute { .. }
            | MixCommand::AddBus { .. }
            | MixCommand::RemoveBus { .. }
            | MixCommand::AddInstrument { .. }
            | MixCommand::RemoveInstrument { .. }
            | MixCommand::SetInstrumentVoice { .. }
            | MixCommand::SetInstrumentSplits { .. }
            | MixCommand::AddInstrumentStrips { .. }
            | MixCommand::SetOutputPatch { .. }
            | MixCommand::ClearOutputPatch { .. } => true,
            _ => false,
        }
    }

    /// Whether the tape refuses this command while it is rolling.
    pub fn stops_the_tape(&self) -> (stops: bool)
        ensures
            stops == self.reshapes(),
    {
        match self {
            MixCommand::AddStrip { .. }
            | MixCommand::RemoveStrip { .. }
            | MixCommand::SetInput { .. }
            | MixCommand::SetRoute { .. }
            | MixCommand::AddBus { .. }
            | MixCommand::RemoveBus { .. }
            | MixCommand::AddInstrument { .. }
            | MixCommand::RemoveInstrument { .. }
            | MixCommand::SetInstrumentVoice { .. }
            | MixCommand::SetInstrumentSplits { .. }
            | MixCommand::AddInstrumentStrips { .. }
            | MixCommand::SetOutputPatch { .. }
            | MixCommand::ClearOutputPatch { .. } => true,
            MixCommand::SetFader { .. }
            | MixCommand::SetGain { .. }
            | MixCommand::SetEqBand { .. }
            | MixCommand::SetEqEnabled { .. }
            | MixCommand::SetPan { .. }
            | MixCommand::SetMute { .. }
            | MixCommand::SetPfl { .. }
            | MixCommand::Rename { .. }
            | MixCommand::SetSend { .. }
            | MixCommand::SetFxParams { .. }
            | MixCommand::SetFxReturn { .. }
            | MixCommand::SetRecordArm { .. }
            | MixCommand::SetRecordArmAll { .. }
            | MixCommand::SetInstrumentPerformance { .. }
            | MixCommand::SetOutputTap { .. } => false,
        }
    }
}

/// What a successful command changed. A client patches its mirror from it.
#[derive(Debug, Clone, PartialEq)]
#[allow(inconsistent_fields)]
pub enum StateDelta {
    Fader { target: FaderTarget, level_db: Single },
    Gain { strip: StripId, gain_db: Single },
    EqBand {
        strip: StripId,
        band: EqBandKind,
        freq_hz: Single,
        gain_db: Single,
        q: Single,
    },
    EqEnabled { strip: StripId, enabled: bool },
    Pan { strip: StripId, pan: Single },
    Mute { target: FaderTarget, mute: bool },
    Pfl { target: FaderTarget, on: bool },
    Input { strip: StripId, input: Option<InputAssign> },
    Renamed { target: FaderTarget, name: String },
    StripAdded { strip: StripState },
    /// Carries the jacks that went quiet with the strip.
    StripRemoved { id: StripId, unpatched_outputs: Vec<OutputJack> },
    Send { strip: StripId, dest: BusId, level_db: Single, tap: SendTap },
    Route { strip: StripId, to: RouteTarget },
    FxParams { fx: FxId, params: FxParams },
    FxReturn { fx: FxId, level_db: Single },
    BusAdded { bus: BusState },
    /// Carries the jacks that went quiet with the bus.
    BusRemoved { id: BusId, unpatched_outputs: Vec<OutputJack> },
    RecordArm { target: FaderTarget, armed: bool },
    RecordArmAll { armed: bool },
    InstrumentAdded { instrument: InstrumentState },
    /// Carries the strips that lost their input.
    InstrumentRemoved { id: InstrumentId, unpatched: Vec<StripId> },
    InstrumentChanged { instrument: InstrumentState },
    /// Carries the strips that were created.
    InstrumentStripsAdded { id: InstrumentId, added: Vec<StripState> },
    OutputPatched { patch: OutputPatch },
    OutputUnpatched { jack: OutputJack },
    OutputTap { jack: OutputJack, tap: SendTap },
}

/// What a delta says.
#[verifier::ext_equal]
#[allow(inconsistent_fields)]
pub ghost enum DeltaView {
    Fader { target: FaderTarget, level_db: Single },
    Gain { strip: StripId, gain_db: Single },
    EqBand {
        strip: StripId,
        band: EqBandKind,
        freq_hz: Single,
        gain_db: Single,
        q: Single,
    },
    EqEnabled { strip: StripId, enabled: bool },
    Pan { strip: StripId, pan: Single },
    Mute { target: FaderTarget, mute: bool },
    Pfl { target: FaderTarget, on: bool },
    Input { strip: StripId, input: Option<InputView> },
    Renamed { target: FaderTarget, name: Seq<char> },
    StripAdded { strip: StripView },
    StripRemoved { id: StripId, unpatched_outputs: Seq<JackView> },
    Send { strip: StripId, dest: BusId, level_db: Single, tap: SendTap },
    Route { strip: StripId, to: RouteTarget },
    FxParams { fx: FxId, params: FxParams },
    FxReturn { fx: FxId, level_db: Single },
    BusAdded { bus: BusView },
    BusRemoved { id: BusId, unpatched_outputs: Seq<JackView> },
    RecordArm { target: FaderTarget, armed: bool },
    RecordArmAll { armed: bool },
    InstrumentAdded { instrument: InstrumentView },
    InstrumentRemoved { id: InstrumentId, unpatched: Seq<StripId> },
    InstrumentChanged { instrument: InstrumentView },
    InstrumentStripsAdded { id: InstrumentId, added: Seq<StripView> },
    OutputPatched { patch: PatchView },
    OutputUnpatched { jack: JackView },
    OutputTap { jack: JackView, tap: SendTap },
}

impl View for StateDelta {
    type V = DeltaView;

    open spec fn view(&self) -> DeltaView {
        match *self {
            StateDelta::Fader { target, level_db } => DeltaView::Fader { target, level_db },
            StateDelta::Gain { strip, gain_db } => DeltaView::Gain { strip, gain_db },
            StateDelta::EqBand { strip, band, freq_hz, gain_db, q } => DeltaView::EqBand {
                strip,
                band,
                freq_hz,
                gain_db,
                q,
            },
            StateDelta::EqEnabled { strip, enabled } => DeltaView::EqEnabled { strip, enabled },
            StateDelta::Pan { strip, pan } => DeltaView::Pan { strip, pan },
            StateDelta::Mute { target, mute } => DeltaView::Mute { target, mute },
            StateDelta::Pfl { target, on } => DeltaView::Pfl { target, on },
            StateDelta::Input { strip, input } => DeltaView::Input {
                strip,
                input: input_of(input),
            },
            StateDelta::Renamed { target, name } => DeltaView::Renamed { target, name: name@ },
            StateDelta::StripAdded { strip } => DeltaView::StripAdded { strip: strip@ },
            StateDelta::StripRemoved { id, unpatched_outputs } => DeltaView::StripRemoved {
                id,
                unpatched_outputs: views(unpatched_outputs@),
            },
            StateDelta::Send { strip, dest, level_db, tap } => DeltaView::Send {
                strip,
                dest,
                level_db,
                tap,
            },
            StateDelta::Route { strip, to } => DeltaView::Route { strip, to },
            StateDelta::FxParams { fx, params } => DeltaView::FxParams { fx, params },
            StateDelta::FxReturn { fx, level_db } => DeltaView::FxReturn { fx, level_db },
            StateDelta::BusAdded { bus } => DeltaView::BusAdded { bus: bus@ },
            StateDelta::BusRemoved { id, unpatched_outputs } => DeltaView::BusRemoved {
                id,
                unpatched_outputs: views(unpatched_outputs@),
            },
            StateDelta::RecordArm { target, armed } => DeltaView::RecordArm { target, armed },
            StateDelta::RecordArmAll { armed } => DeltaView::RecordArmAll { armed },
            StateDelta::InstrumentAdded { instrument } => DeltaView::InstrumentAdded {
                instrument: instrument@,
            },
            StateDelta::InstrumentRemoved { id, unpatched } => DeltaView::InstrumentRemoved {
                id,
                unpatched: unpatched@,
            },
            StateDelta::InstrumentChanged { instrument } => DeltaView::InstrumentChanged {
                instrument: instrument@,
            },
            StateDelta::InstrumentStripsAdded { id, added } => DeltaView::InstrumentStripsAdded {
                id,
                added: views(added@),
            },
            StateDelta::OutputPatched { patch } => DeltaView::OutputPatched { patch: patch@ },
            StateDelta::OutputUnpatched { jack } => DeltaView::OutputUnpatched { jack: jack@ },
            StateDelta::OutputTap { jack, tap } => DeltaView::OutputTap { jack: jack@, tap },
        }
    }
}

/// How the engine must be told about a change: a cheap parameter write, or a
/// full graph recompile and swap.
#[derive(Debug, Clone, Copy, PartialEq, Eq, Structural)]
pub enum ReconcileNeed {
    ParamOnly,
    Topology,
}

/// Why a command was refused.
#[derive(Debug, PartialEq)]
pub enum MixError {
    /// Nothing of that name is in the document.
    UnknownTarget(String),
    OutOfRange { field: &'static str, value: Single },
    Unsupported(&'static str),
    BadName(&'static str),
}

/// What a refusal says.
#[verifier::ext_equal]
pub ghost enum ErrorView {
    UnknownTarget(Seq<char>),
    OutOfRange { field: Seq<char>, value: Single },
    Unsupported(Seq<char>),
    BadName(Seq<char>),
}

impl View for MixError {
    type V = ErrorView;

    open spec fn view(&self) -> ErrorView {
        match *self {
            MixError::UnknownTarget(name) => ErrorView::UnknownTarget(name@),
            MixError::OutOfRange { field, value } => ErrorView::OutOfRange { field: field@, value },
            MixError::Unsupported(why) => ErrorView::Unsupported(why@),
            MixError::BadName(why) => ErrorView::BadName(why@),
        }
    }
}

} // verus!
