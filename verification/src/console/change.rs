//! What each command does to the document, stated over the document's model.

use vstd::prelude::*;
use vstd::utf8::encode_utf8;

use crate::console::bus::fresh_bus;
use crate::console::bus::BusKind;
use crate::console::bus::BusView;
use crate::console::command::DeltaView;
use crate::console::command::ErrorView;
use crate::console::command::FaderTarget;
use crate::console::command::MixCommand;
use crate::console::command::ReconcileNeed;
use crate::console::command::MAX_INSTRUMENTS;
use crate::console::command::MAX_NAME_LEN;
use crate::console::command::MAX_POLYPHONY;
use crate::console::command::MAX_STRIPS;
use crate::console::command::MIN_POLYPHONY;
use crate::console::db::FADER_MAX_DB;
use crate::console::db::FADER_MIN_DB;
use crate::console::db::GAIN_MAX_DB;
use crate::console::db::GAIN_MIN_DB;
use crate::console::eq::EqBand;
use crate::console::eq::EqBandKind;
use crate::console::eq::ChannelEq;
use crate::console::eq::EQ_FREQ_MAX_HZ;
use crate::console::eq::EQ_FREQ_MIN_HZ;
use crate::console::eq::EQ_GAIN_CUT_DB;
use crate::console::eq::EQ_GAIN_RANGE_DB;
use crate::console::eq::EQ_Q_MAX;
use crate::console::eq::EQ_Q_MIN;
use crate::console::fx::FxParams;
use crate::console::fx::FxView;
use crate::console::id::BusId;
use crate::console::id::FxId;
use crate::console::id::InstrumentId;
use crate::console::id::StripId;
use crate::console::instrument::fresh_instrument;
use crate::console::instrument::InstrumentView;
use crate::console::instrument::SplitView;
use crate::console::mix::bus_numbers;
use crate::console::mix::strip_numbers;
use crate::console::mix::MasterState;
use crate::console::mix::raised;
use crate::console::mix::MixerView;
use crate::console::output::JackView;
use crate::console::output::OutputSource;
use crate::console::output::PatchView;
use crate::console::output::MAX_OUTPUT_PATCHES;
use crate::console::strip::fresh_strip;
use crate::console::strip::input_of;
use crate::console::strip::InputView;
use crate::console::strip::RouteTarget;
use crate::console::strip::SendState;
use crate::console::strip::SendTap;
use crate::console::strip::StripView;
use crate::seqs::next_free;
use crate::seqs::next_number;
use crate::seqs::views;
use crate::single::whole;
use crate::single::Single;
use crate::text::numeral;
use crate::text::text_of;
use crate::text::trimmed;

verus! {

/// The next document and what changed, or the reason for a refusal.
pub type Change = Result<(MixerView, DeltaView), ErrorView>;

/// A value within its range, both ends included. What is not a number is in
/// no range.
pub open spec fn ranged(field: Seq<char>, value: Single, min: u32, max: u32) -> Result<
    Single,
    ErrorView,
> {
    if (Single { bits: min }).at_most(value) && value.at_most(Single { bits: max }) {
        Ok(value)
    } else {
        Err(ErrorView::OutOfRange { field, value })
    }
}

/// A name as it goes on the tape: trimmed, not empty, at most
/// `MAX_NAME_LEN` bytes.
pub open spec fn tape_name(name: Seq<char>) -> Result<Seq<char>, ErrorView> {
    if trimmed(name).len() == 0 {
        Err(ErrorView::BadName("must not be empty"@))
    } else if encode_utf8(trimmed(name)).len() > MAX_NAME_LEN {
        Err(ErrorView::BadName("too long for the tape"@))
    } else {
        Ok(trimmed(name))
    }
}

/// The document with another strip at index `i`.
pub open spec fn with_strip(s: MixerView, i: int, strip: StripView) -> MixerView {
    MixerView { strips: s.strips.update(i, strip), ..s }
}

/// The document with another bus at index `i`.
pub open spec fn with_bus(s: MixerView, i: int, bus: BusView) -> MixerView {
    MixerView { buses: s.buses.update(i, bus), ..s }
}

/// The document with another effects unit at index `i`.
pub open spec fn with_fx(s: MixerView, i: int, fx: FxView) -> MixerView {
    MixerView { fx: s.fx.update(i, fx), ..s }
}

/// The document with another instrument at index `i`.
pub open spec fn with_instrument(s: MixerView, i: int, instrument: InstrumentView) -> MixerView {
    MixerView { instruments: s.instruments.update(i, instrument), ..s }
}

pub open spec fn unknown_strip(id: StripId) -> Change {
    Err(ErrorView::UnknownTarget(id.label()))
}

pub open spec fn unknown_bus(id: BusId) -> Change {
    Err(ErrorView::UnknownTarget(id.label()))
}

pub open spec fn unknown_fx(id: FxId) -> Change {
    Err(ErrorView::UnknownTarget(id.label()))
}

pub open spec fn unknown_instrument(id: InstrumentId) -> Change {
    Err(ErrorView::UnknownTarget(id.label()))
}

/// How a source reads in a message.
pub open spec fn source_label(source: OutputSource) -> Seq<char> {
    match source {
        OutputSource::Strip { id } => id.label(),
        OutputSource::Bus { id } => id.label(),
        OutputSource::Master => "master"@,
    }
}

/// How a jack reads in a message: channels count from one.
pub open spec fn jack_label(jack: JackView) -> Seq<char> {
    match jack.device {
        Some(device) => device + " out "@ + numeral((jack.channel + 1) as nat),
        None => "out "@ + numeral((jack.channel + 1) as nat),
    }
}

pub open spec fn fader_set(s: MixerView, target: FaderTarget, level_db: Single) -> Change {
    match ranged("level_db"@, level_db, FADER_MIN_DB, FADER_MAX_DB) {
        Err(e) => Err(e),
        Ok(level_db) => match target {
            FaderTarget::Strip { id } => match s.strip_at(id) {
                Some(i) => Ok(
                    (
                        with_strip(s, i, StripView { fader_db: level_db, ..s.strips[i] }),
                        DeltaView::Fader { target, level_db },
                    ),
                ),
                None => unknown_strip(id),
            },
            FaderTarget::Bus { id } => match s.bus_at(id) {
                Some(i) => Ok(
                    (
                        with_bus(s, i, BusView { fader_db: level_db, ..s.buses[i] }),
                        DeltaView::Fader { target, level_db },
                    ),
                ),
                None => unknown_bus(id),
            },
            FaderTarget::Master => Ok(
                (
                    MixerView { master: MasterState { fader_db: level_db, ..s.master }, ..s },
                    DeltaView::Fader { target, level_db },
                ),
            ),
        },
    }
}

pub open spec fn gain_set(s: MixerView, strip: StripId, gain_db: Single) -> Change {
    match ranged("gain_db"@, gain_db, GAIN_MIN_DB, GAIN_MAX_DB) {
        Err(e) => Err(e),
        Ok(gain_db) => match s.strip_at(strip) {
            Some(i) => Ok(
                (
                    with_strip(s, i, StripView { gain_db, ..s.strips[i] }),
                    DeltaView::Gain { strip, gain_db },
                ),
            ),
            None => unknown_strip(strip),
        },
    }
}

/// A band moved, its kind kept.
pub open spec fn moved(band: EqBand, freq_hz: Single, gain_db: Single, q: Single) -> EqBand {
    EqBand { freq_hz, gain_db, q, ..band }
}

/// The equaliser with the band in one slot moved.
pub open spec fn with_band(
    eq: ChannelEq,
    band: EqBandKind,
    freq_hz: Single,
    gain_db: Single,
    q: Single,
) -> ChannelEq {
    match band {
        EqBandKind::LowShelf => ChannelEq { low: moved(eq.low, freq_hz, gain_db, q), ..eq },
        EqBandKind::Peak => ChannelEq { mid: moved(eq.mid, freq_hz, gain_db, q), ..eq },
        EqBandKind::HighShelf => ChannelEq { high: moved(eq.high, freq_hz, gain_db, q), ..eq },
    }
}

pub open spec fn eq_band_set(
    s: MixerView,
    strip: StripId,
    band: EqBandKind,
    freq_hz: Single,
    gain_db: Single,
    q: Single,
) -> Change {
    match (
        ranged("freq_hz"@, freq_hz, EQ_FREQ_MIN_HZ, EQ_FREQ_MAX_HZ),
        ranged("gain_db"@, gain_db, EQ_GAIN_CUT_DB, EQ_GAIN_RANGE_DB),
        ranged("q"@, q, EQ_Q_MIN, EQ_Q_MAX),
    ) {
        (Err(e), _, _) => Err(e),
        (Ok(_), Err(e), _) => Err(e),
        (Ok(_), Ok(_), Err(e)) => Err(e),
        (Ok(freq_hz), Ok(gain_db), Ok(q)) => match s.strip_at(strip) {
            Some(i) => Ok(
                (
                    with_strip(
                        s,
                        i,
                        StripView {
                            eq: with_band(s.strips[i].eq, band, freq_hz, gain_db, q),
                            ..s.strips[i]
                        },
                    ),
                    DeltaView::EqBand { strip, band, freq_hz, gain_db, q },
                ),
            ),
            None => unknown_strip(strip),
        },
    }
}

pub open spec fn eq_enabled_set(s: MixerView, strip: StripId, enabled: bool) -> Change {
    match s.strip_at(strip) {
        Some(i) => Ok(
            (
                with_strip(
                    s,
                    i,
                    StripView { eq: ChannelEq { enabled, ..s.strips[i].eq }, ..s.strips[i] },
                ),
                DeltaView::EqEnabled { strip, enabled },
            ),
        ),
        None => unknown_strip(strip),
    }
}

/// Bits of -1 and of 1, the ends of the pan.
pub const PAN_LEFT: u32 = 0xBF80_0000;

pub const PAN_RIGHT: u32 = 0x3F80_0000;

pub open spec fn pan_set(s: MixerView, strip: StripId, pan: Single) -> Change {
    match ranged("pan"@, pan, PAN_LEFT, PAN_RIGHT) {
        Err(e) => Err(e),
        Ok(pan) => match s.strip_at(strip) {
            Some(i) => Ok(
                (
                    with_strip(s, i, StripView { pan, ..s.strips[i] }),
                    DeltaView::Pan { strip, pan },
                ),
            ),
            None => unknown_strip(strip),
        },
    }
}

pub open spec fn mute_set(s: MixerView, target: FaderTarget, mute: bool) -> Change {
    match target {
        FaderTarget::Strip { id } => match s.strip_at(id) {
            Some(i) => Ok(
                (
                    with_strip(s, i, StripView { mute, ..s.strips[i] }),
                    DeltaView::Mute { target, mute },
                ),
            ),
            None => unknown_strip(id),
        },
        FaderTarget::Bus { id } => match s.bus_at(id) {
            Some(i) => Ok(
                (
                    with_bus(s, i, BusView { mute, ..s.buses[i] }),
                    DeltaView::Mute { target, mute },
                ),
            ),
            None => unknown_bus(id),
        },
        FaderTarget::Master => Err(ErrorView::Unsupported("master has no mute"@)),
    }
}

pub open spec fn pfl_set(s: MixerView, target: FaderTarget, on: bool) -> Change {
    match target {
        FaderTarget::Strip { id } => match s.strip_at(id) {
            Some(i) => Ok(
                (
                    with_strip(s, i, StripView { pfl: on, ..s.strips[i] }),
                    DeltaView::Pfl { target, on },
                ),
            ),
            None => unknown_strip(id),
        },
        FaderTarget::Bus { id } => match s.bus_at(id) {
            Some(i) => Ok(
                (
                    with_bus(s, i, BusView { pfl: on, ..s.buses[i] }),
                    DeltaView::Pfl { target, on },
                ),
            ),
            None => unknown_bus(id),
        },
        FaderTarget::Master => Err(ErrorView::Unsupported("master has no PFL"@)),
    }
}

pub open spec fn input_set(s: MixerView, strip: StripId, input: Option<InputView>) -> Change {
    match s.strip_at(strip) {
        Some(i) => Ok(
            (
                with_strip(s, i, StripView { input, ..s.strips[i] }),
                DeltaView::Input { strip, input },
            ),
        ),
        None => unknown_strip(strip),
    }
}

pub open spec fn renamed(s: MixerView, target: FaderTarget, name: Seq<char>) -> Change {
    match tape_name(name) {
        Err(e) => Err(e),
        Ok(name) => match target {
            FaderTarget::Strip { id } => match s.strip_at(id) {
                Some(i) => Ok(
                    (
                        with_strip(s, i, StripView { name, ..s.strips[i] }),
                        DeltaView::Renamed { target, name },
                    ),
                ),
                None => unknown_strip(id),
            },
            FaderTarget::Bus { id } => match s.bus_at(id) {
                Some(i) => Ok(
                    (
                        with_bus(s, i, BusView { name, ..s.buses[i] }),
                        DeltaView::Renamed { target, name },
                    ),
                ),
                None => unknown_bus(id),
            },
            FaderTarget::Master => Err(ErrorView::Unsupported("master has no tape"@)),
        },
    }
}

/// The given name checked, or the default where none is given.
pub open spec fn chosen_name(name: Option<Seq<char>>, default: Seq<char>) -> Result<
    Seq<char>,
    ErrorView,
> {
    match name {
        Some(name) => tape_name(name),
        None => Ok(default),
    }
}

pub open spec fn strip_added(s: MixerView, name: Option<Seq<char>>) -> Change {
    let n = s.next_strip();
    if s.strips.len() >= MAX_STRIPS {
        Err(ErrorView::Unsupported("the console is full"@))
    } else {
        match chosen_name(name, "Ch "@ + numeral((n + 1) as nat)) {
            Err(e) => Err(e),
            Ok(name) => {
                let strip = fresh_strip(StripId(n as u32), name);
                Ok(
                    (
                        MixerView { strips: s.strips.push(strip), ..s },
                        DeltaView::StripAdded { strip },
                    ),
                )
            },
        }
    }
}

pub open spec fn other_strip(id: StripId) -> spec_fn(StripView) -> bool {
    |strip: StripView| strip.id != id
}

pub open spec fn other_bus(id: BusId) -> spec_fn(BusView) -> bool {
    |bus: BusView| bus.id != id
}

pub open spec fn other_instrument(id: InstrumentId) -> spec_fn(InstrumentView) -> bool {
    |instrument: InstrumentView| instrument.id != id
}

pub open spec fn other_dest(id: BusId) -> spec_fn(SendState) -> bool {
    |send: SendState| send.dest != id
}

pub open spec fn other_source(source: OutputSource) -> spec_fn(PatchView) -> bool {
    |patch: PatchView| patch.source != source
}

pub open spec fn fed_by(source: OutputSource) -> spec_fn(PatchView) -> bool {
    |patch: PatchView| patch.source == source
}

pub open spec fn other_jack(jack: JackView) -> spec_fn(PatchView) -> bool {
    |patch: PatchView| patch.jack_of() != jack
}

/// The jacks that a source feeds, in patch order.
pub open spec fn fed_jacks(outputs: Seq<PatchView>, source: OutputSource) -> Seq<JackView> {
    outputs.filter(fed_by(source)).map_values(|patch: PatchView| patch.jack_of())
}

pub open spec fn strip_removed(s: MixerView, id: StripId) -> Change {
    match s.strip_at(id) {
        Some(_) => Ok(
            (
                MixerView {
                    strips: s.strips.filter(other_strip(id)),
                    outputs: s.outputs.filter(other_source(OutputSource::Strip { id })),
                    strip_mark: raised(s.strip_mark, id.0),
                    ..s
                },
                DeltaView::StripRemoved {
                    id,
                    unpatched_outputs: fed_jacks(s.outputs, OutputSource::Strip { id }),
                },
            ),
        ),
        None => unknown_strip(id),
    }
}

/// The buses that the sends go to, in send order.
pub open spec fn dests(sends: Seq<SendState>) -> Seq<BusId> {
    Seq::new(sends.len(), |i: int| sends[i].dest)
}

/// The sends with the one toward `send.dest` replaced, or `send` added.
pub open spec fn with_send(sends: Seq<SendState>, send: SendState) -> Seq<SendState> {
    match dests(sends).index_of_first(send.dest) {
        Some(i) => sends.update(i, send),
        None => sends.push(send),
    }
}

pub open spec fn send_set(
    s: MixerView,
    strip: StripId,
    dest: BusId,
    level_db: Single,
    tap: SendTap,
) -> Change {
    match ranged("level_db"@, level_db, FADER_MIN_DB, FADER_MAX_DB) {
        Err(e) => Err(e),
        Ok(level_db) => match s.bus_at(dest) {
            None => unknown_bus(dest),
            Some(b) => if s.buses[b].kind != BusKind::Aux {
                Err(ErrorView::Unsupported("sends target aux buses only"@))
            } else {
                match s.strip_at(strip) {
                    Some(i) => Ok(
                        (
                            with_strip(
                                s,
                                i,
                                StripView {
                                    sends: with_send(
                                        s.strips[i].sends,
                                        SendState { dest, level_db, tap },
                                    ),
                                    ..s.strips[i]
                                },
                            ),
                            DeltaView::Send { strip, dest, level_db, tap },
                        ),
                    ),
                    None => unknown_strip(strip),
                }
            },
        },
    }
}

/// Why a strip may not be routed there, if it may not.
pub open spec fn route_fault(s: MixerView, to: RouteTarget) -> Option<ErrorView> {
    match to {
        RouteTarget::Master => None,
        RouteTarget::Bus { id } => match s.bus_at(id) {
            None => Some(ErrorView::UnknownTarget(id.label())),
            Some(b) => if s.buses[b].kind != BusKind::Group {
                Some(ErrorView::Unsupported("strips route to master or groups"@))
            } else {
                None
            },
        },
    }
}

pub open spec fn route_set(s: MixerView, strip: StripId, to: RouteTarget) -> Change {
    match route_fault(s, to) {
        Some(e) => Err(e),
        None => match s.strip_at(strip) {
            Some(i) => Ok(
                (
                    with_strip(s, i, StripView { route_to: to, ..s.strips[i] }),
                    DeltaView::Route { strip, to },
                ),
            ),
            None => unknown_strip(strip),
        },
    }
}

/// Bits of 0, of 2000 and of 0.95: ends of the effects' knobs.
pub const FX_ZERO: u32 = 0;

pub const FX_ONE: u32 = 0x3F80_0000;

pub const DELAY_MAX_MS: u32 = 0x44FA_0000;

pub const FEEDBACK_MAX: u32 = 0x3F73_3333;

/// The first knob out of its range, if one is.
pub open spec fn fx_fault(params: FxParams) -> Option<ErrorView> {
    let (first, second) = match params {
        FxParams::Reverb { room_size, damping } => (
            ranged("room_size"@, room_size, FX_ZERO, FX_ONE),
            ranged("damping"@, damping, FX_ZERO, FX_ONE),
        ),
        FxParams::Delay { time_ms, feedback } => (
            ranged("time_ms"@, time_ms, FX_ONE, DELAY_MAX_MS),
            ranged("feedback"@, feedback, FX_ZERO, FEEDBACK_MAX),
        ),
    };
    match (first, second) {
        (Err(e), _) => Some(e),
        (Ok(_), Err(e)) => Some(e),
        (Ok(_), Ok(_)) => None,
    }
}

pub open spec fn fx_params_set(s: MixerView, fx: FxId, params: FxParams) -> Change {
    match fx_fault(params) {
        Some(e) => Err(e),
        None => match s.fx_at(fx) {
            None => unknown_fx(fx),
            Some(i) => if (s.fx[i].params is Reverb) != (params is Reverb) {
                Err(ErrorView::Unsupported("an FX unit cannot change kind"@))
            } else {
                Ok(
                    (
                        with_fx(s, i, FxView { params, ..s.fx[i] }),
                        DeltaView::FxParams { fx, params },
                    ),
                )
            },
        },
    }
}

pub open spec fn fx_return_set(s: MixerView, fx: FxId, level_db: Single) -> Change {
    match ranged("level_db"@, level_db, FADER_MIN_DB, FADER_MAX_DB) {
        Err(e) => Err(e),
        Ok(level_db) => match s.fx_at(fx) {
            Some(i) => Ok(
                (
                    with_fx(s, i, FxView { return_level_db: level_db, ..s.fx[i] }),
                    DeltaView::FxReturn { fx, level_db },
                ),
            ),
            None => unknown_fx(fx),
        },
    }
}

/// What a bus is called that nobody named.
pub open spec fn bus_prefix(kind: BusKind) -> Seq<char> {
    match kind {
        BusKind::Group => "Group "@,
        BusKind::Aux => "Aux "@,
    }
}

pub open spec fn bus_added(s: MixerView, kind: BusKind, name: Option<Seq<char>>) -> Change {
    let n = next_free(bus_numbers(s.buses));
    match chosen_name(name, bus_prefix(kind) + numeral((n + 1) as nat)) {
        Err(e) => Err(e),
        Ok(name) => {
            let bus = fresh_bus(BusId(n as u32), kind, name);
            Ok((MixerView { buses: s.buses.push(bus), ..s }, DeltaView::BusAdded { bus }))
        },
    }
}

/// Whether an effects unit takes its input from that bus.
pub open spec fn feeds_fx(fx: Seq<FxView>, id: BusId) -> bool {
    exists|i: int| 0 <= i < fx.len() && (#[trigger] fx[i]).input == id
}

/// A strip after a bus is gone: its route falls back to the master, its send
/// toward the bus disappears.
pub open spec fn without_bus(strip: StripView, id: BusId) -> StripView {
    StripView {
        route_to: if strip.route_to == (RouteTarget::Bus { id }) {
            RouteTarget::Master
        } else {
            strip.route_to
        },
        sends: strip.sends.filter(other_dest(id)),
        ..strip
    }
}

pub open spec fn bus_removed(s: MixerView, id: BusId) -> Change {
    if feeds_fx(s.fx, id) {
        Err(ErrorView::Unsupported("bus feeds an FX unit"@))
    } else {
        match s.bus_at(id) {
            Some(_) => Ok(
                (
                    MixerView {
                        strips: Seq::new(s.strips.len(), |i: int| without_bus(s.strips[i], id)),
                        buses: s.buses.filter(other_bus(id)),
                        outputs: s.outputs.filter(other_source(OutputSource::Bus { id })),
                        ..s
                    },
                    DeltaView::BusRemoved {
                        id,
                        unpatched_outputs: fed_jacks(s.outputs, OutputSource::Bus { id }),
                    },
                ),
            ),
            None => unknown_bus(id),
        }
    }
}

pub open spec fn record_arm_set(s: MixerView, target: FaderTarget, armed: bool) -> Change {
    match target {
        FaderTarget::Strip { id } => match s.strip_at(id) {
            Some(i) => Ok(
                (
                    with_strip(s, i, StripView { record_arm: armed, ..s.strips[i] }),
                    DeltaView::RecordArm { target, armed },
                ),
            ),
            None => unknown_strip(id),
        },
        FaderTarget::Master => Ok(
            (
                MixerView { master: MasterState { record_arm: armed, ..s.master }, ..s },
                DeltaView::RecordArm { target, armed },
            ),
        ),
        FaderTarget::Bus { .. } => Err(ErrorView::Unsupported("buses are not recorded in v1"@)),
    }
}

pub open spec fn record_arm_all_set(s: MixerView, armed: bool) -> Change {
    Ok(
        (
            MixerView {
                strips: Seq::new(
                    s.strips.len(),
                    |i: int| StripView { record_arm: armed, ..s.strips[i] },
                ),
                ..s
            },
            DeltaView::RecordArmAll { armed },
        ),
    )
}

pub open spec fn instrument_added(s: MixerView, name: Option<Seq<char>>) -> Change {
    let n = s.next_instrument();
    if s.instruments.len() >= MAX_INSTRUMENTS {
        Err(ErrorView::Unsupported("the instrument rack is full"@))
    } else {
        match chosen_name(name, "Inst "@ + numeral(s.instruments.len() + 1)) {
            Err(e) => Err(e),
            Ok(name) => {
                let instrument = fresh_instrument(InstrumentId(n as u32), name);
                Ok(
                    (
                        MixerView { instruments: s.instruments.push(instrument), ..s },
                        DeltaView::InstrumentAdded { instrument },
                    ),
                )
            },
        }
    }
}

/// Whether a strip is patched to that instrument.
pub open spec fn plays(id: InstrumentId) -> spec_fn(StripView) -> bool {
    |strip: StripView| strip.input is Some && strip.input->0.instrument_id() == Some(id)
}

/// A strip after an instrument is gone.
pub open spec fn without_instrument(strip: StripView, id: InstrumentId) -> StripView {
    if plays(id)(strip) {
        StripView { input: None, ..strip }
    } else {
        strip
    }
}

pub open spec fn instrument_removed(s: MixerView, id: InstrumentId) -> Change {
    match s.instrument_at(id) {
        Some(_) => Ok(
            (
                MixerView {
                    strips: Seq::new(s.strips.len(), |i: int| without_instrument(s.strips[i], id)),
                    instruments: s.instruments.filter(other_instrument(id)),
                    instrument_mark: raised(s.instrument_mark, id.0),
                    ..s
                },
                DeltaView::InstrumentRemoved {
                    id,
                    unpatched: s.strips.filter(plays(id)).map_values(|strip: StripView| strip.id),
                },
            ),
        ),
        None => unknown_instrument(id),
    }
}

pub open spec fn voice_set(
    s: MixerView,
    id: InstrumentId,
    soundfont: Option<Seq<char>>,
    polyphony: u16,
    effects: bool,
) -> Change {
    if !(MIN_POLYPHONY <= polyphony <= MAX_POLYPHONY) {
        bad_number("polyphony"@, polyphony as nat)
    } else {
        match s.instrument_at(id) {
            Some(i) => {
                let instrument = InstrumentView {
                    soundfont,
                    polyphony,
                    effects,
                    ..s.instruments[i]
                };
                Ok(
                    (
                        with_instrument(s, i, instrument),
                        DeltaView::InstrumentChanged { instrument },
                    ),
                )
            },
            None => unknown_instrument(id),
        }
    }
}

pub open spec fn performance_set(
    s: MixerView,
    id: InstrumentId,
    name: Seq<char>,
    bank: u16,
    program: u8,
    port: Option<Seq<char>>,
    midi_channel: Option<u8>,
) -> Change {
    match tape_name(name) {
        Err(e) => Err(e),
        Ok(name) => if program > 127 {
            bad_number("program"@, program as nat)
        } else if midi_channel is Some && midi_channel->0 > 15 {
            bad_number("midi_channel"@, midi_channel->0 as nat)
        } else {
            match s.instrument_at(id) {
                Some(i) => {
                    let instrument = InstrumentView {
                        name,
                        bank,
                        program,
                        port,
                        midi_channel,
                        ..s.instruments[i]
                    };
                    Ok(
                        (
                            with_instrument(s, i, instrument),
                            DeltaView::InstrumentChanged { instrument },
                        ),
                    )
                },
                None => unknown_instrument(id),
            }
        },
    }
}

/// A range that runs backwards or leaves the keyboard.
pub open spec fn bad_range(range: (u8, u8)) -> bool {
    range.0 > range.1 || range.1 > 127
}

/// What is wrong with a split, if anything is.
pub open spec fn split_fault(split: SplitView) -> Option<ErrorView> {
    match tape_name(split.name) {
        Err(e) => Some(e),
        Ok(_) => if split.ranges.len() == 0 {
            Some(ErrorView::BadName("a split needs at least one key range"@))
        } else if exists|i: int| 0 <= i < split.ranges.len() && bad_range(#[trigger] split.ranges[i]) {
            Some(ErrorView::OutOfRange { field: "key range"@, value: Single { bits: 0 } })
        } else {
            None
        },
    }
}

/// What is wrong with the first faulty split at or behind `from`.
pub open spec fn first_split_fault(splits: Seq<SplitView>, from: int) -> Option<ErrorView>
    decreases splits.len() - from,
{
    if from < 0 || from >= splits.len() {
        None
    } else {
        match split_fault(splits[from]) {
            Some(e) => Some(e),
            None => first_split_fault(splits, from + 1),
        }
    }
}

/// A strip after an instrument shrank: a patch past the new width would land
/// on a neighbour, so it is pulled.
pub open spec fn within_width(strip: StripView, id: InstrumentId, width: nat) -> StripView {
    if plays(id)(strip) && strip.input->0.channel_of() >= width {
        StripView { input: None, ..strip }
    } else {
        strip
    }
}

pub open spec fn splits_set(s: MixerView, id: InstrumentId, splits: Seq<SplitView>) -> Change {
    match first_split_fault(splits, 0) {
        Some(e) => Err(e),
        None => match s.instrument_at(id) {
            Some(i) => {
                let instrument = InstrumentView { splits, ..s.instruments[i] };
                Ok(
                    (
                        MixerView {
                            strips: Seq::new(
                                s.strips.len(),
                                |j: int| within_width(s.strips[j], id, instrument.width()),
                            ),
                            instruments: s.instruments.update(i, instrument),
                            ..s
                        },
                        DeltaView::InstrumentChanged { instrument },
                    ),
                )
            },
            None => unknown_instrument(id),
        },
    }
}

/// Whether a strip is patched to exactly that input.
pub open spec fn on_the_desk(strips: Seq<StripView>, input: InputView) -> bool {
    exists|i: int| 0 <= i < strips.len() && (#[trigger] strips[i]).input == Some(input)
}

/// The patch onto a channel, counted in sixteen bits.
pub open spec fn channel_patch(instrument: InstrumentId, channel: int) -> InputView {
    InputView::Instrument { instrument, channel: channel as u16 }
}

/// The desk once every channel from `channel` on has a strip.
pub open spec fn desk_with(
    mark: u64,
    strips: Seq<StripView>,
    id: InstrumentId,
    names: Seq<Seq<char>>,
    channel: int,
) -> Result<Seq<StripView>, ErrorView>
    decreases names.len() - channel,
{
    if channel < 0 || channel >= names.len() {
        Ok(strips)
    } else if on_the_desk(strips, channel_patch(id, channel)) {
        desk_with(mark, strips, id, names, channel + 1)
    } else if strips.len() >= MAX_STRIPS {
        Err(ErrorView::Unsupported("the console is full"@))
    } else {
        match tape_name(names[channel]) {
            Err(e) => Err(e),
            Ok(name) => desk_with(
                mark,
                strips.push(channel_strip(mark, strips, id, channel, name)),
                id,
                names,
                channel + 1,
            ),
        }
    }
}

/// The strip that puts one channel on the desk.
pub open spec fn channel_strip(
    mark: u64,
    strips: Seq<StripView>,
    id: InstrumentId,
    channel: int,
    name: Seq<char>,
) -> StripView {
    StripView {
        input: Some(channel_patch(id, channel)),
        ..fresh_strip(StripId(next_number(mark, strip_numbers(strips)) as u32), name)
    }
}

/// Whether the strip numbers that `desk_with` hands out fit in 32 bits.
pub open spec fn desk_numbers_fit(
    mark: u64,
    strips: Seq<StripView>,
    id: InstrumentId,
    names: Seq<Seq<char>>,
    channel: int,
) -> bool
    decreases names.len() - channel,
{
    if channel < 0 || channel >= names.len() {
        true
    } else if on_the_desk(strips, channel_patch(id, channel)) {
        desk_numbers_fit(mark, strips, id, names, channel + 1)
    } else if strips.len() >= MAX_STRIPS {
        true
    } else {
        next_number(mark, strip_numbers(strips)) <= u32::MAX && match tape_name(names[channel]) {
            Err(_) => true,
            Ok(name) => desk_numbers_fit(
                mark,
                strips.push(channel_strip(mark, strips, id, channel, name)),
                id,
                names,
                channel + 1,
            ),
        }
    }
}

pub open spec fn instrument_strips_added(s: MixerView, id: InstrumentId) -> Change {
    match s.instrument_at(id) {
        None => unknown_instrument(id),
        Some(i) => match desk_with(s.strip_mark, s.strips, id, s.instruments[i].names(), 0) {
            Err(e) => Err(e),
            Ok(strips) => Ok(
                (
                    MixerView { strips, ..s },
                    DeltaView::InstrumentStripsAdded {
                        id,
                        added: strips.skip(s.strips.len() as int),
                    },
                ),
            ),
        },
    }
}

pub open spec fn output_patched(s: MixerView, patch: PatchView) -> Change {
    match s.source_width(patch.source) {
        None => Err(ErrorView::UnknownTarget(source_label(patch.source))),
        Some(width) => if patch.source_channel >= width {
            bad_number("source_channel"@, patch.source_channel as nat)
        } else {
            match s.output_at(patch.jack_of()) {
                Some(i) => Ok(
                    (
                        MixerView { outputs: s.outputs.update(i, patch), ..s },
                        DeltaView::OutputPatched { patch },
                    ),
                ),
                None => if s.outputs.len() >= MAX_OUTPUT_PATCHES {
                    Err(ErrorView::Unsupported("the output patch bay is full"@))
                } else {
                    Ok(
                        (
                            MixerView { outputs: s.outputs.push(patch), ..s },
                            DeltaView::OutputPatched { patch },
                        ),
                    )
                },
            }
        },
    }
}

pub open spec fn output_cleared(s: MixerView, jack: JackView) -> Change {
    match s.output_at(jack) {
        Some(_) => Ok(
            (
                MixerView { outputs: s.outputs.filter(other_jack(jack)), ..s },
                DeltaView::OutputUnpatched { jack },
            ),
        ),
        None => Err(ErrorView::UnknownTarget(jack_label(jack))),
    }
}

pub open spec fn output_tap_set(s: MixerView, jack: JackView, tap: SendTap) -> Change {
    match s.output_at(jack) {
        Some(i) => Ok(
            (
                MixerView {
                    outputs: s.outputs.update(i, PatchView { tap, ..s.outputs[i] }),
                    ..s
                },
                DeltaView::OutputTap { jack, tap },
            ),
        ),
        None => Err(ErrorView::UnknownTarget(jack_label(jack))),
    }
}

/// A whole number that is out of its range.
pub open spec fn bad_number(field: Seq<char>, n: nat) -> Change {
    Err(ErrorView::OutOfRange { field, value: whole(n) })
}

/// What a command does to the document and reports, or why it is refused.
pub open spec fn change(s: MixerView, command: MixCommand) -> Change {
    match command {
        MixCommand::SetFader { target, level_db } => fader_set(s, target, level_db),
        MixCommand::SetGain { strip, gain_db } => gain_set(s, strip, gain_db),
        MixCommand::SetEqBand { strip, band, freq_hz, gain_db, q } => eq_band_set(
            s,
            strip,
            band,
            freq_hz,
            gain_db,
            q,
        ),
        MixCommand::SetEqEnabled { strip, enabled } => eq_enabled_set(s, strip, enabled),
        MixCommand::SetPan { strip, pan } => pan_set(s, strip, pan),
        MixCommand::SetMute { target, mute } => mute_set(s, target, mute),
        MixCommand::SetPfl { target, on } => pfl_set(s, target, on),
        MixCommand::SetInput { strip, input } => input_set(s, strip, input_of(input)),
        MixCommand::Rename { target, name } => renamed(s, target, name@),
        MixCommand::AddStrip { name } => strip_added(s, text_of(name)),
        MixCommand::RemoveStrip { id } => strip_removed(s, id),
        MixCommand::SetSend { strip, dest, level_db, tap } => send_set(
            s,
            strip,
            dest,
            level_db,
            tap,
        ),
        MixCommand::SetRoute { strip, to } => route_set(s, strip, to),
        MixCommand::SetFxParams { fx, params } => fx_params_set(s, fx, params),
        MixCommand::SetFxReturn { fx, level_db } => fx_return_set(s, fx, level_db),
        MixCommand::AddBus { kind, name } => bus_added(s, kind, text_of(name)),
        MixCommand::RemoveBus { id } => bus_removed(s, id),
        MixCommand::SetRecordArm { target, armed } => record_arm_set(s, target, armed),
        MixCommand::SetRecordArmAll { armed } => record_arm_all_set(s, armed),
        MixCommand::AddInstrument { name } => instrument_added(s, text_of(name)),
        MixCommand::RemoveInstrument { id } => instrument_removed(s, id),
        MixCommand::SetInstrumentVoice { id, soundfont, polyphony, effects } => voice_set(
            s,
            id,
            text_of(soundfont),
            polyphony,
            effects,
        ),
        MixCommand::SetInstrumentPerformance { id, name, bank, program, port, midi_channel } =>
            performance_set(s, id, name@, bank, program, text_of(port), midi_channel),
        MixCommand::SetInstrumentSplits { id, splits } => splits_set(s, id, views(splits@)),
        MixCommand::AddInstrumentStrips { id } => instrument_strips_added(s, id),
        MixCommand::SetOutputPatch { patch } => output_patched(s, patch@),
        MixCommand::ClearOutputPatch { jack } => output_cleared(s, jack@),
        MixCommand::SetOutputTap { jack, tap } => output_tap_set(s, jack@, tap),
    }
}

/// What the engine needs after a command went through.
pub open spec fn need(command: MixCommand) -> ReconcileNeed {
    if command.reshapes() {
        ReconcileNeed::Topology
    } else {
        ReconcileNeed::ParamOnly
    }
}

/// Whether the numbers that a command hands out or prints fit their machine
/// types. It can fail only where an identifier or a channel number stands at
/// the very end of its type.
pub open spec fn numbers_fit(s: MixerView, command: MixCommand) -> bool {
    match command {
        MixCommand::AddStrip { name } => s.strips.len() < MAX_STRIPS ==> {
            let n = s.next_strip();
            n < u32::MAX || (n == u32::MAX && name is Some)
        },
        MixCommand::AddBus { name, .. } => {
            let n = next_free(bus_numbers(s.buses));
            n < u32::MAX || (n == u32::MAX && name is Some)
        },
        MixCommand::AddInstrument { .. } => s.instruments.len() < MAX_INSTRUMENTS
            ==> s.next_instrument() <= u32::MAX,
        MixCommand::AddInstrumentStrips { id } => match s.instrument_at(id) {
            Some(i) => desk_numbers_fit(s.strip_mark, s.strips, id, s.instruments[i].names(), 0),
            None => true,
        },
        MixCommand::ClearOutputPatch { jack } => s.output_at(jack@) is None ==> jack.channel
            < u16::MAX,
        MixCommand::SetOutputTap { jack, .. } => s.output_at(jack@) is None ==> jack.channel
            < u16::MAX,
        _ => true,
    }
}

} // verus!
