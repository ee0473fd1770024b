//! The compiled graph: the document flattened into nodes that refer to one
//! another by index, with a table for each kind of control.
//!
//! The library keeps the routing and where every control stands. What turns a
//! sample into another sample hangs off the graph as `dsp`, which the library
//! only carries.

use std::collections::HashMap;

use vstd::prelude::*;

use crate::console::bus::BusKind;
use crate::console::bus::BusState;
use crate::console::bus::BusView;
use crate::console::eq::EqBand;
use crate::console::eq::EqBandKind;
use crate::console::fx::FxParams;
use crate::console::fx::FxState;
use crate::console::fx::FxView;
use crate::console::id::BusId;
use crate::console::id::FxId;
use crate::console::id::InstrumentId;
use crate::console::id::StripId;
use crate::console::instrument::InstrumentState;
use crate::console::instrument::InstrumentView;
use crate::console::meter::MeterKey;
use crate::console::mix::bus_ids;
use crate::console::mix::MixerState;
use crate::console::mix::MixerView;
use crate::console::output::OutputPatch;
use crate::console::output::OutputSource;
use crate::console::strip::InputAssign;
use crate::console::strip::InputView;
use crate::console::strip::RouteTarget;
use crate::console::strip::SendState;
use crate::console::strip::SendTap;
use crate::console::strip::StripState;
use crate::console::strip::StripView;
use crate::engine::rings::EqIx;
use crate::engine::rings::FlagIx;
use crate::engine::rings::ParamIx;
use crate::engine::rings::MAX_METERS;
use crate::engine::slots::name_of;
use crate::engine::slots::resolved;
use crate::engine::slots::InputSlots;
use crate::engine::slots::OutputSlots;
use crate::engine::slots::SlotView;
use crate::seqs::views;
use crate::single::Single;

verus! {

/// Where a continuous control lands. An index into the table of these is a
/// `ParamIx`.
#[derive(Debug, Clone, Copy, PartialEq, Eq, Structural)]
pub enum ParamSlot {
    StripGain(u16),
    StripFader(u16),
    StripPan(u16),
    StripMute(u16),
    StripSend(u16, u16),
    BusFader(u16),
    BusMute(u16),
    FxRoom(u16),
    FxDamp(u16),
    FxTime(u16),
    FxFeedback(u16),
    FxReturn(u16),
    MasterFader,
}

/// Where a switch lands. An index into the table of these is a `FlagIx`.
#[derive(Debug, Clone, Copy, PartialEq, Eq, Structural)]
pub enum FlagSlot {
    StripPfl(u16),
    StripEq(u16),
    StripSendPre(u16, u16),
    BusPfl(u16),
    OutputPre(u16),
}

/// Where a set of filter coefficients lands. An index into the table of these
/// is an `EqIx`.
#[derive(Debug, Clone, Copy, PartialEq, Eq, Structural)]
pub struct EqSlot {
    pub strip: u16,
    pub band: EqBandKind,
}

/// A control-side lookup from identity to dispatch index, rebuilt on every
/// compile. Keys are made by `strip_key`, `bus_key`, `fx_key`, `send_key` and
/// `band_key`; output switches are keyed by their place in the patch bay.
pub struct ParamMap {
    pub gain: HashMap<u64, ParamIx>,
    pub fader: HashMap<u64, ParamIx>,
    pub pan: HashMap<u64, ParamIx>,
    pub mute: HashMap<u64, ParamIx>,
    pub send: HashMap<u64, ParamIx>,
    pub send_pre: HashMap<u64, FlagIx>,
    pub bus_fader: HashMap<u64, ParamIx>,
    pub bus_mute: HashMap<u64, ParamIx>,
    pub bus_pfl: HashMap<u64, FlagIx>,
    pub fx_room: HashMap<u64, ParamIx>,
    pub fx_damp: HashMap<u64, ParamIx>,
    pub fx_time: HashMap<u64, ParamIx>,
    pub fx_feedback: HashMap<u64, ParamIx>,
    pub fx_return: HashMap<u64, ParamIx>,
    pub master_fader: Option<ParamIx>,
    pub pfl: HashMap<u64, FlagIx>,
    pub eq_enabled: HashMap<u64, FlagIx>,
    pub eq_band: HashMap<u64, EqIx>,
    pub output_pre: HashMap<u64, FlagIx>,
}

/// What a lookup holds.
#[verifier::ext_equal]
pub ghost struct MapView {
    pub gain: Map<u64, ParamIx>,
    pub fader: Map<u64, ParamIx>,
    pub pan: Map<u64, ParamIx>,
    pub mute: Map<u64, ParamIx>,
    pub send: Map<u64, ParamIx>,
    pub send_pre: Map<u64, FlagIx>,
    pub bus_fader: Map<u64, ParamIx>,
    pub bus_mute: Map<u64, ParamIx>,
    pub bus_pfl: Map<u64, FlagIx>,
    pub fx_room: Map<u64, ParamIx>,
    pub fx_damp: Map<u64, ParamIx>,
    pub fx_time: Map<u64, ParamIx>,
    pub fx_feedback: Map<u64, ParamIx>,
    pub fx_return: Map<u64, ParamIx>,
    pub master_fader: Option<ParamIx>,
    pub pfl: Map<u64, FlagIx>,
    pub eq_enabled: Map<u64, FlagIx>,
    pub eq_band: Map<u64, EqIx>,
    pub output_pre: Map<u64, FlagIx>,
}

impl View for ParamMap {
    type V = MapView;

    open spec fn view(&self) -> MapView {
        MapView {
            gain: self.gain@,
            fader: self.fader@,
            pan: self.pan@,
            mute: self.mute@,
            send: self.send@,
            send_pre: self.send_pre@,
            bus_fader: self.bus_fader@,
            bus_mute: self.bus_mute@,
            bus_pfl: self.bus_pfl@,
            fx_room: self.fx_room@,
            fx_damp: self.fx_damp@,
            fx_time: self.fx_time@,
            fx_feedback: self.fx_feedback@,
            fx_return: self.fx_return@,
            master_fader: self.master_fader,
            pfl: self.pfl@,
            eq_enabled: self.eq_enabled@,
            eq_band: self.eq_band@,
            output_pre: self.output_pre@,
        }
    }
}

/// A lookup that knows nothing.
pub open spec fn empty_map() -> MapView {
    MapView {
        gain: Map::empty(),
        fader: Map::empty(),
        pan: Map::empty(),
        mute: Map::empty(),
        send: Map::empty(),
        send_pre: Map::empty(),
        bus_fader: Map::empty(),
        bus_mute: Map::empty(),
        bus_pfl: Map::empty(),
        fx_room: Map::empty(),
        fx_damp: Map::empty(),
        fx_time: Map::empty(),
        fx_feedback: Map::empty(),
        fx_return: Map::empty(),
        master_fader: None,
        pfl: Map::empty(),
        eq_enabled: Map::empty(),
        eq_band: Map::empty(),
        output_pre: Map::empty(),
    }
}

impl Default for ParamMap {
    fn default() -> (map: ParamMap)
        ensures
            map@ == empty_map(),
    {
        ParamMap {
            gain: HashMap::new(),
            fader: HashMap::new(),
            pan: HashMap::new(),
            mute: HashMap::new(),
            send: HashMap::new(),
            send_pre: HashMap::new(),
            bus_fader: HashMap::new(),
            bus_mute: HashMap::new(),
            bus_pfl: HashMap::new(),
            fx_room: HashMap::new(),
            fx_damp: HashMap::new(),
            fx_time: HashMap::new(),
            fx_feedback: HashMap::new(),
            fx_return: HashMap::new(),
            master_fader: None,
            pfl: HashMap::new(),
            eq_enabled: HashMap::new(),
            eq_band: HashMap::new(),
            output_pre: HashMap::new(),
        }
    }
}

/// The key of a strip's controls.
pub open spec fn strip_code(id: StripId) -> u64 {
    id.0 as u64
}

/// The key of a bus's controls.
pub open spec fn bus_code(id: BusId) -> u64 {
    id.0 as u64
}

/// The key of an effects unit's controls.
pub open spec fn fx_code(id: FxId) -> u64 {
    id.0 as u64
}

/// The key of a send's controls.
pub open spec fn send_code(strip: StripId, bus: BusId) -> u64 {
    (strip.0 * 0x1_0000_0000 + bus.0) as u64
}

/// Which of a strip's three bands a kind is.
pub open spec fn band_number(kind: EqBandKind) -> int {
    match kind {
        EqBandKind::LowShelf => 0,
        EqBandKind::Peak => 1,
        EqBandKind::HighShelf => 2,
    }
}

/// The key of a band's coefficients.
pub open spec fn band_code(strip: StripId, kind: EqBandKind) -> u64 {
    (strip.0 * 4 + band_number(kind)) as u64
}

/// The key of a strip's controls.
pub fn strip_key(id: StripId) -> (key: u64)
    ensures
        key == strip_code(id),
{
    id.0 as u64
}

/// The key of a bus's controls.
pub fn bus_key(id: BusId) -> (key: u64)
    ensures
        key == bus_code(id),
{
    id.0 as u64
}

/// The key of an effects unit's controls.
pub fn fx_key(id: FxId) -> (key: u64)
    ensures
        key == fx_code(id),
{
    id.0 as u64
}

/// The key of a send's controls.
pub fn send_key(strip: StripId, bus: BusId) -> (key: u64)
    ensures
        key == send_code(strip, bus),
{
    strip.0 as u64 * 0x1_0000_0000 + bus.0 as u64
}

/// The key of a band's coefficients.
pub fn band_key(strip: StripId, kind: EqBandKind) -> (key: u64)
    ensures
        key == band_code(strip, kind),
{
    let band: u64 = match kind {
        EqBandKind::LowShelf => 0,
        EqBandKind::Peak => 1,
        EqBandKind::HighShelf => 2,
    };
    strip.0 as u64 * 4 + band
}

/// No two sends, and no two bands, share a key.
pub proof fn keys_tell_controls_apart(
    a: StripId,
    b: StripId,
    x: BusId,
    y: BusId,
    j: EqBandKind,
    k: EqBandKind,
)
    ensures
        strip_code(a) == strip_code(b) ==> a == b,
        send_code(a, x) == send_code(b, y) ==> a == b && x == y,
        band_code(a, j) == band_code(b, k) ==> a == b && j == k,
{
}

/// The dispatch tables while they are filled.
#[verifier::ext_equal]
pub ghost struct Tables {
    pub params: Seq<ParamSlot>,
    pub flags: Seq<FlagSlot>,
    pub eqs: Seq<EqSlot>,
    pub map: MapView,
}

/// The index that the next continuous control gets, counted from the end of
/// the table.
pub open spec fn param_ix(t: Tables, k: int) -> ParamIx {
    ParamIx((t.params.len() + k) as u16)
}

pub open spec fn flag_ix(t: Tables, k: int) -> FlagIx {
    FlagIx((t.flags.len() + k) as u16)
}

pub open spec fn eq_ix(t: Tables, k: int) -> EqIx {
    EqIx((t.eqs.len() + k) as u16)
}

pub open spec fn no_tables() -> Tables {
    Tables {
        params: Seq::empty(),
        flags: Seq::empty(),
        eqs: Seq::empty(),
        map: empty_map(),
    }
}

/// The tables once a strip's own controls are in.
pub open spec fn strip_entered(t: Tables, i: u16, id: StripId) -> Tables {
    let key = strip_code(id);
    Tables {
        params: t.params + seq![
            ParamSlot::StripGain(i),
            ParamSlot::StripFader(i),
            ParamSlot::StripPan(i),
            ParamSlot::StripMute(i),
        ],
        flags: t.flags + seq![FlagSlot::StripPfl(i), FlagSlot::StripEq(i)],
        eqs: t.eqs + seq![
            EqSlot { strip: i, band: EqBandKind::LowShelf },
            EqSlot { strip: i, band: EqBandKind::Peak },
            EqSlot { strip: i, band: EqBandKind::HighShelf },
        ],
        map: MapView {
            gain: t.map.gain.insert(key, param_ix(t, 0)),
            fader: t.map.fader.insert(key, param_ix(t, 1)),
            pan: t.map.pan.insert(key, param_ix(t, 2)),
            mute: t.map.mute.insert(key, param_ix(t, 3)),
            pfl: t.map.pfl.insert(key, flag_ix(t, 0)),
            eq_enabled: t.map.eq_enabled.insert(key, flag_ix(t, 1)),
            eq_band: t.map.eq_band.insert(
                band_code(id, EqBandKind::LowShelf),
                eq_ix(t, 0),
            ).insert(band_code(id, EqBandKind::Peak), eq_ix(t, 1)).insert(
                band_code(id, EqBandKind::HighShelf),
                eq_ix(t, 2),
            ),
            ..t.map
        },
    }
}

/// The tables once a strip's first `n` sends are in, one toward every aux.
pub open spec fn sends_entered(t: Tables, i: u16, id: StripId, aux: Seq<BusId>, n: int) -> Tables
    decreases n,
{
    if n <= 0 {
        t
    } else {
        let u = sends_entered(t, i, id, aux, n - 1);
        let key = send_code(id, aux[n - 1]);
        Tables {
            params: u.params.push(ParamSlot::StripSend(i, (n - 1) as u16)),
            flags: u.flags.push(FlagSlot::StripSendPre(i, (n - 1) as u16)),
            map: MapView {
                send: u.map.send.insert(key, param_ix(u, 0)),
                send_pre: u.map.send_pre.insert(key, flag_ix(u, 0)),
                ..u.map
            },
            ..u
        }
    }
}

/// The tables once the first `n` strips are in.
pub open spec fn strips_entered(strips: Seq<StripView>, aux: Seq<BusId>, n: int) -> Tables
    decreases n,
{
    if n <= 0 {
        no_tables()
    } else {
        sends_entered(
            strip_entered(
                strips_entered(strips, aux, n - 1),
                (n - 1) as u16,
                strips[n - 1].id,
            ),
            (n - 1) as u16,
            strips[n - 1].id,
            aux,
            aux.len() as int,
        )
    }
}

/// The tables once the first `n` buses are in.
pub open spec fn buses_entered(t: Tables, buses: Seq<BusView>, n: int) -> Tables
    decreases n,
{
    if n <= 0 {
        t
    } else {
        let u = buses_entered(t, buses, n - 1);
        let i = (n - 1) as u16;
        let key = bus_code(buses[n - 1].id);
        Tables {
            params: u.params + seq![ParamSlot::BusFader(i), ParamSlot::BusMute(i)],
            flags: u.flags.push(FlagSlot::BusPfl(i)),
            map: MapView {
                bus_fader: u.map.bus_fader.insert(key, param_ix(u, 0)),
                bus_mute: u.map.bus_mute.insert(key, param_ix(u, 1)),
                bus_pfl: u.map.bus_pfl.insert(key, flag_ix(u, 0)),
                ..u.map
            },
            ..u
        }
    }
}

/// The tables once the first `n` effects units are in.
pub open spec fn fx_entered(t: Tables, fx: Seq<FxView>, n: int) -> Tables
    decreases n,
{
    if n <= 0 {
        t
    } else {
        let u = fx_entered(t, fx, n - 1);
        let i = (n - 1) as u16;
        let key = fx_code(fx[n - 1].id);
        match fx[n - 1].params {
            FxParams::Reverb { .. } => Tables {
                params: u.params + seq![
                    ParamSlot::FxReturn(i),
                    ParamSlot::FxRoom(i),
                    ParamSlot::FxDamp(i),
                ],
                map: MapView {
                    fx_return: u.map.fx_return.insert(key, param_ix(u, 0)),
                    fx_room: u.map.fx_room.insert(key, param_ix(u, 1)),
                    fx_damp: u.map.fx_damp.insert(key, param_ix(u, 2)),
                    ..u.map
                },
                ..u
            },
            FxParams::Delay { .. } => Tables {
                params: u.params + seq![
                    ParamSlot::FxReturn(i),
                    ParamSlot::FxTime(i),
                    ParamSlot::FxFeedback(i),
                ],
                map: MapView {
                    fx_return: u.map.fx_return.insert(key, param_ix(u, 0)),
                    fx_time: u.map.fx_time.insert(key, param_ix(u, 1)),
                    fx_feedback: u.map.fx_feedback.insert(key, param_ix(u, 2)),
                    ..u.map
                },
                ..u
            },
        }
    }
}

/// The tables once the master is in.
pub open spec fn master_entered(t: Tables) -> Tables {
    Tables {
        params: t.params.push(ParamSlot::MasterFader),
        map: MapView { master_fader: Some(param_ix(t, 0)), ..t.map },
        ..t
    }
}

/// The tables once the switches of the first `n` direct outs are in.
pub open spec fn outs_entered(t: Tables, outs: Seq<DirectOut>, n: int) -> Tables
    decreases n,
{
    if n <= 0 {
        t
    } else {
        let u = outs_entered(t, outs, n - 1);
        Tables {
            flags: u.flags.push(FlagSlot::OutputPre((n - 1) as u16)),
            map: MapView {
                output_pre: u.map.output_pre.insert(
                    outs[n - 1].patch as u64,
                    flag_ix(u, 0),
                ),
                ..u.map
            },
            ..u
        }
    }
}

/// Where a control stands: in decibels as the document has it, or in linear
/// terms as a command set it.
#[derive(Debug, Clone, Copy, PartialEq, Eq, Structural)]
pub enum Level {
    Db(Single),
    Linear(Single),
}

/// A control, and whether it was moved since the audio side last looked.
#[derive(Debug, Clone, Copy, PartialEq, Eq, Structural)]
pub struct Knob {
    pub target: Level,
    pub moved: bool,
}

/// The coefficients of one filter.
#[derive(Debug, Clone, Copy, PartialEq, Eq, Structural)]
pub struct EqCoeffs {
    pub b0: Single,
    pub b1: Single,
    pub b2: Single,
    pub a1: Single,
    pub a2: Single,
}

/// What a filter is to do.
#[derive(Debug, Clone, Copy, PartialEq, Eq, Structural)]
pub enum EqTarget {
    Band(EqBand),
    Coeffs(EqCoeffs),
}

/// A filter, and whether it was changed since the audio side last looked.
#[derive(Debug, Clone, Copy, PartialEq, Eq, Structural)]
pub struct EqKnob {
    pub target: EqTarget,
    pub moved: bool,
}

/// Where a strip's samples come from.
#[derive(Debug, Clone, Copy, PartialEq, Eq, Structural)]
pub enum StripSource {
    Silence,
    /// A channel of the device input frame.
    Input(u16),
    /// A channel of the instrument rack's frame.
    Instrument(u16),
}

#[derive(Debug, Clone, Copy, PartialEq, Eq, Structural)]
pub struct SendSlot {
    /// Index of the aux among the buses.
    pub bus: u16,
    pub level: Knob,
    pub pre: bool,
}

#[derive(Debug)]
pub struct StripNode {
    pub source: StripSource,
    pub gain: Knob,
    pub eq_enabled: bool,
    pub low: EqKnob,
    pub mid: EqKnob,
    pub high: EqKnob,
    /// 0 or 1.
    pub mute: Knob,
    pub fader: Knob,
    pub pan: Knob,
    pub pfl: bool,
    /// `None` is the master, otherwise an index among the buses.
    pub route: Option<u16>,
    /// One per aux, always: a quiet send is just quiet.
    pub sends: Vec<SendSlot>,
}

/// What a strip node holds.
#[verifier::ext_equal]
pub ghost struct StripNodeView {
    pub source: StripSource,
    pub gain: Knob,
    pub eq_enabled: bool,
    pub low: EqKnob,
    pub mid: EqKnob,
    pub high: EqKnob,
    pub mute: Knob,
    pub fader: Knob,
    pub pan: Knob,
    pub pfl: bool,
    pub route: Option<u16>,
    pub sends: Seq<SendSlot>,
}

impl View for StripNode {
    type V = StripNodeView;

    open spec fn view(&self) -> StripNodeView {
        StripNodeView {
            source: self.source,
            gain: self.gain,
            eq_enabled: self.eq_enabled,
            low: self.low,
            mid: self.mid,
            high: self.high,
            mute: self.mute,
            fader: self.fader,
            pan: self.pan,
            pfl: self.pfl,
            route: self.route,
            sends: self.sends@,
        }
    }
}

#[derive(Debug, Clone, Copy, PartialEq, Eq, Structural)]
pub struct BusNode {
    pub kind: BusKind,
    pub fader: Knob,
    pub mute: Knob,
    pub pfl: bool,
}

/// The knobs of an effects unit.
#[derive(Debug, Clone, Copy, PartialEq, Eq, Structural)]
pub enum FxKnobs {
    Reverb { room: Knob, damp: Knob },
    Delay { time: Knob, feedback: Knob },
}

#[derive(Debug, Clone, Copy, PartialEq, Eq, Structural)]
pub struct FxNode {
    /// Index of the feeding aux; `None` is silence.
    pub input: Option<u16>,
    pub knobs: FxKnobs,
    pub return_level: Knob,
}

/// What a direct out taps.
#[derive(Debug, Clone, Copy, PartialEq, Eq, Structural)]
pub enum TapPoint {
    Strip(u16),
    Bus(u16),
    Master,
}

/// One output patch, resolved.
#[derive(Debug, Clone, Copy, PartialEq, Eq, Structural)]
pub struct DirectOut {
    /// Its place in the patch bay.
    pub patch: usize,
    /// Channel of the output plane.
    pub channel: u16,
    pub source: TapPoint,
    /// Channel within the source.
    pub side: u16,
    pub pre: bool,
}

/// The document, flattened.
pub struct CompiledGraph<D> {
    pub block_size: usize,
    pub strips: Vec<StripNode>,
    pub buses: Vec<BusNode>,
    pub fx: Vec<FxNode>,
    pub outs: Vec<DirectOut>,
    pub master_fader: Knob,
    /// What each dispatch index reaches.
    pub params: Vec<ParamSlot>,
    pub flags: Vec<FlagSlot>,
    pub eqs: Vec<EqSlot>,
    /// Meter points: strip `i` at index `i`, the master last.
    pub meter_count: usize,
    /// What the audio side keeps with the graph.
    pub dsp: D,
}

/// What a graph holds, apart from what it carries for the audio side.
#[verifier::ext_equal]
pub ghost struct GraphView {
    pub block_size: usize,
    pub strips: Seq<StripNodeView>,
    pub buses: Seq<BusNode>,
    pub fx: Seq<FxNode>,
    pub outs: Seq<DirectOut>,
    pub master_fader: Knob,
    pub params: Seq<ParamSlot>,
    pub flags: Seq<FlagSlot>,
    pub eqs: Seq<EqSlot>,
    pub meter_count: usize,
}

impl<D> View for CompiledGraph<D> {
    type V = GraphView;

    open spec fn view(&self) -> GraphView {
        GraphView {
            block_size: self.block_size,
            strips: views(self.strips@),
            buses: self.buses@,
            fx: self.fx@,
            outs: self.outs@,
            master_fader: self.master_fader,
            params: self.params@,
            flags: self.flags@,
            eqs: self.eqs@,
            meter_count: self.meter_count,
        }
    }
}

/// Channels that the rack's frame has.
pub const MAX_INSTRUMENT_CHANNELS: usize = 64;

/// Bits of 1.
pub const UNITY: u32 = 0x3F80_0000;

/// A control that nobody has moved yet.
pub open spec fn at_rest(target: Level) -> Knob {
    Knob { target, moved: false }
}

/// A filter that nobody has changed yet.
pub open spec fn band_at_rest(band: EqBand) -> EqKnob {
    EqKnob { target: EqTarget::Band(band), moved: false }
}

/// Mute as a gain: 0 or 1.
pub open spec fn mute_level(mute: bool) -> Level {
    Level::Linear(Single { bits: if mute { 0 } else { UNITY } })
}

/// The place of a bus among the buses. Should two share an id, the last is
/// meant.
pub open spec fn bus_place(buses: Seq<BusView>, id: BusId) -> Option<u16> {
    match bus_ids(buses).index_of_last(id) {
        Some(i) => Some(i as u16),
        None => None,
    }
}

pub open spec fn is_aux() -> spec_fn(BusView) -> bool {
    |bus: BusView| bus.kind == BusKind::Aux
}

/// The aux buses, in desk order.
pub open spec fn aux_ids(buses: Seq<BusView>) -> Seq<BusId> {
    bus_ids(buses.filter(is_aux()))
}

/// Channels of the rack's frame in front of the instrument at `i`.
pub open spec fn rack_base(instruments: Seq<InstrumentView>, i: int) -> nat
    decreases i,
{
    if i <= 0 {
        0
    } else {
        rack_base(instruments, i - 1) + instruments[i - 1].width()
    }
}

/// The channel of the rack's frame that an instrument patch reads: instruments
/// stand in it in document order, each as wide as the desk has it.
pub open spec fn rack_channel(s: MixerView, id: InstrumentId, channel: u16) -> StripSource {
    match s.instrument_at(id) {
        Some(i) => {
            let at = rack_base(s.instruments, i) + channel;
            if channel < s.instruments[i].width() && at < MAX_INSTRUMENT_CHANNELS {
                StripSource::Instrument(at as u16)
            } else {
                StripSource::Silence
            }
        },
        None => StripSource::Silence,
    }
}

/// Where a strip's samples come from. A device that is not open is silence.
pub open spec fn source_of(
    s: MixerView,
    input: Option<InputView>,
    inputs: Seq<SlotView>,
) -> StripSource {
    match input {
        None => StripSource::Silence,
        Some(InputView::Device { device, device_channel }) => match resolved(
            inputs,
            device,
            device_channel,
        ) {
            Some(i) => StripSource::Input(i),
            None => StripSource::Silence,
        },
        Some(InputView::Instrument { instrument, channel }) => rack_channel(
            s,
            instrument,
            channel,
        ),
    }
}

/// The slot of a strip's send toward an aux: silent where the strip has none.
pub open spec fn send_slot(sends: Seq<SendState>, buses: Seq<BusView>, id: BusId) -> SendSlot {
    let bus = bus_place(buses, id)->0;
    match crate::console::change::dests(sends).index_of_first(id) {
        Some(i) => SendSlot {
            bus,
            level: at_rest(Level::Db(sends[i].level_db)),
            pre: sends[i].tap == SendTap::PreFader,
        },
        None => SendSlot {
            bus,
            level: at_rest(Level::Linear(Single { bits: 0 })),
            pre: false,
        },
    }
}

/// The node of a strip.
pub open spec fn strip_node(s: MixerView, strip: StripView, inputs: Seq<SlotView>) -> StripNodeView {
    StripNodeView {
        source: source_of(s, strip.input, inputs),
        gain: at_rest(Level::Db(strip.gain_db)),
        eq_enabled: strip.eq.enabled,
        low: band_at_rest(strip.eq.low),
        mid: band_at_rest(strip.eq.mid),
        high: band_at_rest(strip.eq.high),
        mute: at_rest(mute_level(strip.mute)),
        fader: at_rest(Level::Db(strip.fader_db)),
        pan: at_rest(Level::Linear(strip.pan)),
        pfl: strip.pfl,
        route: match strip.route_to {
            RouteTarget::Master => None,
            RouteTarget::Bus { id } => bus_place(s.buses, id),
        },
        sends: Seq::new(
            aux_ids(s.buses).len(),
            |k: int| send_slot(strip.sends, s.buses, aux_ids(s.buses)[k]),
        ),
    }
}

/// The node of a bus.
pub open spec fn bus_node(bus: BusView) -> BusNode {
    BusNode {
        kind: bus.kind,
        fader: at_rest(Level::Db(bus.fader_db)),
        mute: at_rest(mute_level(bus.mute)),
        pfl: bus.pfl,
    }
}

/// The node of an effects unit.
pub open spec fn fx_node(s: MixerView, fx: FxView) -> FxNode {
    FxNode {
        input: bus_place(s.buses, fx.input),
        knobs: match fx.params {
            FxParams::Reverb { room_size, damping } => FxKnobs::Reverb {
                room: at_rest(Level::Linear(room_size)),
                damp: at_rest(Level::Linear(damping)),
            },
            FxParams::Delay { time_ms, feedback } => FxKnobs::Delay {
                time: at_rest(Level::Linear(time_ms)),
                feedback: at_rest(Level::Linear(feedback)),
            },
        },
        return_level: at_rest(Level::Db(fx.return_level_db)),
    }
}

/// What an output patch taps, if the document holds it.
pub open spec fn tap_point(s: MixerView, source: OutputSource) -> Option<TapPoint> {
    match source {
        OutputSource::Strip { id } => match s.strip_at(id) {
            Some(i) => Some(TapPoint::Strip(i as u16)),
            None => None,
        },
        OutputSource::Bus { id } => match s.bus_at(id) {
            Some(i) => Some(TapPoint::Bus(i as u16)),
            None => None,
        },
        OutputSource::Master => Some(TapPoint::Master),
    }
}

/// The direct out of one patch: none where its jack is not open, its source is
/// gone, or the source has no such channel.
pub open spec fn direct_out(s: MixerView, outputs: Seq<SlotView>, j: int) -> Option<DirectOut> {
    let patch = s.outputs[j];
    match (
        resolved(outputs, patch.device, patch.channel),
        tap_point(s, patch.source),
        s.source_width(patch.source),
    ) {
        (Some(channel), Some(source), Some(width)) => if patch.source_channel < width {
            Some(
                DirectOut {
                    patch: j as usize,
                    channel,
                    source,
                    side: patch.source_channel,
                    pre: patch.tap == SendTap::PreFader,
                },
            )
        } else {
            None
        },
        _ => None,
    }
}

/// The direct outs of the first `n` patches.
pub open spec fn direct_outs(s: MixerView, outputs: Seq<SlotView>, n: int) -> Seq<DirectOut>
    decreases n,
{
    if n <= 0 {
        Seq::empty()
    } else {
        match direct_out(s, outputs, n - 1) {
            Some(out) => direct_outs(s, outputs, n - 1).push(out),
            None => direct_outs(s, outputs, n - 1),
        }
    }
}

/// The dispatch tables of a document.
pub open spec fn tables_of(s: MixerView, outputs: Seq<SlotView>) -> Tables {
    let strips = strips_entered(s.strips, aux_ids(s.buses), s.strips.len() as int);
    let buses = buses_entered(strips, s.buses, s.buses.len() as int);
    let fx = fx_entered(buses, s.fx, s.fx.len() as int);
    let outs = direct_outs(s, outputs, s.outputs.len() as int);
    outs_entered(master_entered(fx), outs, outs.len() as int)
}

/// What each meter point shows: the strips, then the master.
pub open spec fn meter_keys_of(s: MixerView) -> Seq<MeterKey> {
    Seq::new(s.strips.len(), |i: int| MeterKey::Strip { id: s.strips[i].id }).push(MeterKey::Master)
}

/// The graph of a document.
pub open spec fn graph_of(
    s: MixerView,
    block_size: usize,
    inputs: Seq<SlotView>,
    outputs: Seq<SlotView>,
) -> GraphView {
    let tables = tables_of(s, outputs);
    let meters = s.strips.len() + 1;
    GraphView {
        block_size,
        strips: Seq::new(s.strips.len(), |i: int| strip_node(s, s.strips[i], inputs)),
        buses: Seq::new(s.buses.len(), |i: int| bus_node(s.buses[i])),
        fx: Seq::new(s.fx.len(), |i: int| fx_node(s, s.fx[i])),
        outs: direct_outs(s, outputs, s.outputs.len() as int),
        master_fader: at_rest(Level::Db(s.master.fader_db)),
        params: tables.params,
        flags: tables.flags,
        eqs: tables.eqs,
        meter_count: if meters < MAX_METERS {
            meters as usize
        } else {
            MAX_METERS
        },
    }
}

/// A freshly compiled document.
pub struct CompileOutput<D> {
    pub graph: Box<CompiledGraph<D>>,
    pub params: ParamMap,
    /// What each meter point of the graph shows.
    pub meter_keys: Vec<MeterKey>,
}

struct TableBuilder {
    params: Vec<ParamSlot>,
    flags: Vec<FlagSlot>,
    eqs: Vec<EqSlot>,
    map: ParamMap,
}

impl View for TableBuilder {
    type V = Tables;

    closed spec fn view(&self) -> Tables {
        Tables {
            params: self.params@,
            flags: self.flags@,
            eqs: self.eqs@,
            map: self.map@,
        }
    }
}

fn push_param(table: &mut Vec<ParamSlot>, slot: ParamSlot) -> (ix: ParamIx)
    ensures
        final(table)@ == old(table)@.push(slot),
        ix == ParamIx(old(table)@.len() as u16),
{
    let at: usize = table.len();
    table.push(slot);
    ParamIx(at as u16)
}

fn push_flag(table: &mut Vec<FlagSlot>, slot: FlagSlot) -> (ix: FlagIx)
    ensures
        final(table)@ == old(table)@.push(slot),
        ix == FlagIx(old(table)@.len() as u16),
{
    let at: usize = table.len();
    table.push(slot);
    FlagIx(at as u16)
}

fn push_eq(table: &mut Vec<EqSlot>, slot: EqSlot) -> (ix: EqIx)
    ensures
        final(table)@ == old(table)@.push(slot),
        ix == EqIx(old(table)@.len() as u16),
{
    let at: usize = table.len();
    table.push(slot);
    EqIx(at as u16)
}

impl TableBuilder {
    fn new() -> (t: TableBuilder)
        ensures
            t@ == no_tables(),
    {
        TableBuilder {
            params: Vec::new(),
            flags: Vec::new(),
            eqs: Vec::new(),
            map: ParamMap::default(),
        }
    }

    fn enter_strip(&mut self, i: u16, id: StripId)
        ensures
            final(self)@ == strip_entered(old(self)@, i, id),
    {
        broadcast use vstd::std_specs::hash::group_hash_axioms;

        let key: u64 = strip_key(id);
        let gain: ParamIx = push_param(&mut self.params, ParamSlot::StripGain(i));
        self.map.gain.insert(key, gain);
        let fader: ParamIx = push_param(&mut self.params, ParamSlot::StripFader(i));
        self.map.fader.insert(key, fader);
        let pan: ParamIx = push_param(&mut self.params, ParamSlot::StripPan(i));
        self.map.pan.insert(key, pan);
        let mute: ParamIx = push_param(&mut self.params, ParamSlot::StripMute(i));
        self.map.mute.insert(key, mute);
        let pfl: FlagIx = push_flag(&mut self.flags, FlagSlot::StripPfl(i));
        self.map.pfl.insert(key, pfl);
        let eq_enabled: FlagIx = push_flag(&mut self.flags, FlagSlot::StripEq(i));
        self.map.eq_enabled.insert(key, eq_enabled);
        let low: EqIx = push_eq(&mut self.eqs, EqSlot { strip: i, band: EqBandKind::LowShelf });
        self.map.eq_band.insert(band_key(id, EqBandKind::LowShelf), low);
        let mid: EqIx = push_eq(&mut self.eqs, EqSlot { strip: i, band: EqBandKind::Peak });
        self.map.eq_band.insert(band_key(id, EqBandKind::Peak), mid);
        let high: EqIx = push_eq(&mut self.eqs, EqSlot { strip: i, band: EqBandKind::HighShelf });
        self.map.eq_band.insert(band_key(id, EqBandKind::HighShelf), high);
        assert(self@ =~= strip_entered(old(self)@, i, id));
    }

    fn enter_sends(&mut self, i: u16, id: StripId, aux: &Vec<BusId>)
        ensures
            final(self)@ == sends_entered(old(self)@, i, id, aux@, aux@.len() as int),
    {
        broadcast use vstd::std_specs::hash::group_hash_axioms;

        let ghost start = self@;
        let mut k: usize = 0;
        while k < aux.len()
            invariant
                k <= aux.len(),
                self@ == sends_entered(start, i, id, aux@, k as int),
            decreases aux.len() - k,
        {
            let key: u64 = send_key(id, aux[k]);
            let level: ParamIx = push_param(&mut self.params, ParamSlot::StripSend(i, k as u16));
            self.map.send.insert(key, level);
            let pre: FlagIx = push_flag(&mut self.flags, FlagSlot::StripSendPre(i, k as u16));
            self.map.send_pre.insert(key, pre);
            k = k + 1;
            assert(self@ =~= sends_entered(start, i, id, aux@, k as int));
        }
    }

    fn enter_buses(&mut self, buses: &Vec<BusState>)
        ensures
            final(self)@ == buses_entered(old(self)@, views(buses@), buses@.len() as int),
    {
        broadcast use vstd::std_specs::hash::group_hash_axioms;

        let ghost start = self@;
        let mut i: usize = 0;
        while i < buses.len()
            invariant
                i <= buses.len(),
                self@ == buses_entered(start, views(buses@), i as int),
            decreases buses.len() - i,
        {
            let key: u64 = bus_key(buses[i].id);
            let fader: ParamIx = push_param(&mut self.params, ParamSlot::BusFader(i as u16));
            self.map.bus_fader.insert(key, fader);
            let mute: ParamIx = push_param(&mut self.params, ParamSlot::BusMute(i as u16));
            self.map.bus_mute.insert(key, mute);
            let pfl: FlagIx = push_flag(&mut self.flags, FlagSlot::BusPfl(i as u16));
            self.map.bus_pfl.insert(key, pfl);
            i = i + 1;
            assert(self@ =~= buses_entered(start, views(buses@), i as int));
        }
    }

    fn enter_fx(&mut self, fx: &Vec<FxState>)
        ensures
            final(self)@ == fx_entered(old(self)@, views(fx@), fx@.len() as int),
    {
        broadcast use vstd::std_specs::hash::group_hash_axioms;

        let ghost start = self@;
        let mut i: usize = 0;
        while i < fx.len()
            invariant
                i <= fx.len(),
                self@ == fx_entered(start, views(fx@), i as int),
            decreases fx.len() - i,
        {
            let key: u64 = fx_key(fx[i].id);
            let ret: ParamIx = push_param(&mut self.params, ParamSlot::FxReturn(i as u16));
            self.map.fx_return.insert(key, ret);
            match fx[i].params {
                FxParams::Reverb { .. } => {
                    let room: ParamIx = push_param(&mut self.params, ParamSlot::FxRoom(i as u16));
                    self.map.fx_room.insert(key, room);
                    let damp: ParamIx = push_param(&mut self.params, ParamSlot::FxDamp(i as u16));
                    self.map.fx_damp.insert(key, damp);
                },
                FxParams::Delay { .. } => {
                    let time: ParamIx = push_param(&mut self.params, ParamSlot::FxTime(i as u16));
                    self.map.fx_time.insert(key, time);
                    let feedback: ParamIx = push_param(
                        &mut self.params,
                        ParamSlot::FxFeedback(i as u16),
                    );
                    self.map.fx_feedback.insert(key, feedback);
                },
            }
            i = i + 1;
            assert(self@ =~= fx_entered(start, views(fx@), i as int));
        }
    }

    fn enter_master(&mut self)
        ensures
            final(self)@ == master_entered(old(self)@),
    {
        self.map.master_fader = Some(push_param(&mut self.params, ParamSlot::MasterFader));
        assert(self@ =~= master_entered(old(self)@));
    }

    fn enter_outs(&mut self, outs: &Vec<DirectOut>)
        ensures
            final(self)@ == outs_entered(old(self)@, outs@, outs@.len() as int),
    {
        broadcast use vstd::std_specs::hash::group_hash_axioms;

        let ghost start = self@;
        let mut i: usize = 0;
        while i < outs.len()
            invariant
                i <= outs.len(),
                self@ == outs_entered(start, outs@, i as int),
            decreases outs.len() - i,
        {
            let pre: FlagIx = push_flag(&mut self.flags, FlagSlot::OutputPre(i as u16));
            self.map.output_pre.insert(outs[i].patch as u64, pre);
            i = i + 1;
            assert(self@ =~= outs_entered(start, outs@, i as int));
        }
    }
}

/// The place of a bus among the buses.
fn find_bus_place(buses: &Vec<BusState>, id: BusId) -> (place: Option<u16>)
    ensures
        place == bus_place(views(buses@), id),
{
    let ghost ids = bus_ids(views(buses@));
    let mut i: usize = buses.len();
    while i > 0
        invariant
            ids == bus_ids(views(buses@)),
            i <= buses.len(),
            forall|j: int| i <= j < ids.len() ==> ids[j] != id,
        decreases i,
    {
        i = i - 1;
        if buses[i].id == id {
            proof {
                ids.index_of_last_ensures(id);
                assert(ids[i as int] == id);
            }
            return Some(i as u16);
        }
    }
    proof {
        ids.index_of_last_ensures(id);
    }
    None
}

/// The aux buses, in desk order.
fn collect_aux(buses: &Vec<BusState>) -> (aux: Vec<BusId>)
    ensures
        aux@ == aux_ids(views(buses@)),
{
    let ghost all = views(buses@);
    let mut aux: Vec<BusId> = Vec::new();
    let mut i: usize = 0;
    proof {
        crate::seqs::lemma_filter_none(all, is_aux());
        assert(aux@ =~= bus_ids(all.take(0).filter(is_aux())));
    }
    while i < buses.len()
        invariant
            all == views(buses@),
            i <= buses.len(),
            aux@ == bus_ids(all.take(i as int).filter(is_aux())),
        decreases buses.len() - i,
    {
        proof {
            crate::seqs::lemma_filter_step(all, is_aux(), i as int);
        }
        if buses[i].kind == BusKind::Aux {
            aux.push(buses[i].id);
        }
        i = i + 1;
        assert(aux@ =~= bus_ids(all.take(i as int).filter(is_aux())));
    }
    assert(all.take(i as int) =~= all);
    aux
}

/// A number capped at what a machine word holds.
spec fn capped(n: nat) -> nat {
    if n > usize::MAX {
        usize::MAX as nat
    } else {
        n
    }
}

/// Channels of the rack's frame in front of an instrument, capped.
fn find_rack_base(instruments: &Vec<InstrumentState>, i: usize) -> (base: usize)
    requires
        i <= instruments@.len(),
    ensures
        base == capped(rack_base(views(instruments@), i as int)),
{
    let mut base: usize = 0;
    let mut j: usize = 0;
    while j < i
        invariant
            j <= i <= instruments@.len(),
            base == capped(rack_base(views(instruments@), j as int)),
        decreases i - j,
    {
        let width: usize = instruments[j].channels();
        base = base.saturating_add(width);
        j = j + 1;
    }
    base
}

/// Where a strip's samples come from.
fn find_source(state: &MixerState, input: &Option<InputAssign>, inputs: &InputSlots) -> (source:
    StripSource)
    requires
        inputs.wf(),
    ensures
        source == source_of(
            state@,
            crate::console::strip::input_of(*input),
            inputs.ranges(),
        ),
{
    match input {
        None => StripSource::Silence,
        Some(InputAssign::Device { device, device_channel }) => {
            let name: Option<&str> = match device {
                Some(text) => Some(text.as_str()),
                None => None,
            };
            assert(name_of(name) == crate::text::text_of(*device));
            match inputs.resolve(name, *device_channel) {
                Some(i) => StripSource::Input(i),
                None => StripSource::Silence,
            }
        },
        Some(InputAssign::Instrument { instrument, channel }) => {
            match crate::console::mix::find_instrument(&state.instruments, *instrument) {
                Some(i) => {
                    let base: usize = find_rack_base(&state.instruments, i);
                    let at: usize = base.saturating_add(*channel as usize);
                    if (*channel as usize) < state.instruments[i].channels() && at
                        < MAX_INSTRUMENT_CHANNELS {
                        StripSource::Instrument(at as u16)
                    } else {
                        StripSource::Silence
                    }
                },
                None => StripSource::Silence,
            }
        },
    }
}

fn resting(target: Level) -> (knob: Knob)
    ensures
        knob == at_rest(target),
{
    Knob { target, moved: false }
}

fn resting_band(band: EqBand) -> (knob: EqKnob)
    ensures
        knob == band_at_rest(band),
{
    EqKnob { target: EqTarget::Band(band), moved: false }
}

fn muted(mute: bool) -> (level: Level)
    ensures
        level == mute_level(mute),
{
    if mute {
        Level::Linear(Single { bits: 0 })
    } else {
        Level::Linear(Single { bits: UNITY })
    }
}

/// The slot of a strip's send toward an aux.
fn build_send(sends: &Vec<SendState>, buses: &Vec<BusState>, id: BusId) -> (slot: SendSlot)
    requires
        bus_place(views(buses@), id) is Some,
    ensures
        slot == send_slot(sends@, views(buses@), id),
{
    let bus: u16 = match find_bus_place(buses, id) {
        Some(place) => place,
        None => 0,
    };
    let ghost toward = crate::console::change::dests(sends@);
    let mut i: usize = 0;
    while i < sends.len()
        invariant
            toward == crate::console::change::dests(sends@),
            bus_place(views(buses@), id) == Some(bus),
            i <= sends.len(),
            forall|j: int| 0 <= j < i ==> toward[j] != id,
        decreases sends.len() - i,
    {
        if sends[i].dest == id {
            proof {
                crate::seqs::lemma_first(toward, id, i as int);
            }
            return SendSlot {
                bus,
                level: resting(Level::Db(sends[i].level_db)),
                pre: sends[i].tap == SendTap::PreFader,
            };
        }
        i = i + 1;
    }
    proof {
        crate::seqs::lemma_absent(toward, id);
    }
    SendSlot { bus, level: resting(Level::Linear(Single { bits: 0 })), pre: false }
}

/// Every aux stands among the buses.
proof fn lemma_aux_places(buses: Seq<BusView>)
    ensures
        forall|k: int|
            0 <= k < aux_ids(buses).len() ==> bus_place(
                buses,
                #[trigger] aux_ids(buses)[k],
            ) is Some,
{
    let from = crate::seqs::filter_origins(buses, is_aux());
    assert forall|k: int| 0 <= k < aux_ids(buses).len() implies bus_place(
        buses,
        #[trigger] aux_ids(buses)[k],
    ) is Some by {
        let id = aux_ids(buses)[k];
        assert(id == buses[from[k]].id);
        bus_ids(buses).index_of_last_ensures(id);
        assert(bus_ids(buses)[from[k]] == id);
    }
}

/// The node of a strip.
fn build_strip(state: &MixerState, i: usize, aux: &Vec<BusId>, inputs: &InputSlots) -> (node:
    StripNode)
    requires
        i < state.strips@.len(),
        aux@ == aux_ids(state@.buses),
        inputs.wf(),
    ensures
        node@ == strip_node(state@, state@.strips[i as int], inputs.ranges()),
{
    let ghost s = state@;
    let strip: &StripState = &state.strips[i];
    let mut sends: Vec<SendSlot> = Vec::new();
    let mut k: usize = 0;
    while k < aux.len()
        invariant
            s == state@,
            i < state.strips@.len(),
            *strip == state.strips@[i as int],
            aux@ == aux_ids(s.buses),
            k <= aux.len(),
            sends@.len() == k,
            forall|j: int|
                0 <= j < k ==> #[trigger] sends@[j] == send_slot(
                    strip.sends@,
                    s.buses,
                    aux@[j],
                ),
        decreases aux.len() - k,
    {
        proof {
            lemma_aux_places(s.buses);
            assert(aux@[k as int] == aux_ids(s.buses)[k as int]);
        }
        sends.push(build_send(&strip.sends, &state.buses, aux[k]));
        k = k + 1;
    }
    let node = StripNode {
        source: find_source(state, &strip.input, inputs),
        gain: resting(Level::Db(strip.gain_db)),
        eq_enabled: strip.eq.enabled,
        low: resting_band(strip.eq.low),
        mid: resting_band(strip.eq.mid),
        high: resting_band(strip.eq.high),
        mute: resting(muted(strip.mute)),
        fader: resting(Level::Db(strip.fader_db)),
        pan: resting(Level::Linear(strip.pan)),
        pfl: strip.pfl,
        route: match strip.route_to {
            RouteTarget::Master => None,
            RouteTarget::Bus { id } => find_bus_place(&state.buses, id),
        },
        sends,
    };
    assert(node@.sends =~= strip_node(s, s.strips[i as int], inputs.ranges()).sends);
    node
}

/// The node of an effects unit.
fn build_fx(state: &MixerState, i: usize) -> (node: FxNode)
    requires
        i < state.fx@.len(),
    ensures
        node == fx_node(state@, state@.fx[i as int]),
{
    let unit: &FxState = &state.fx[i];
    FxNode {
        input: find_bus_place(&state.buses, unit.input),
        knobs: match unit.params {
            FxParams::Reverb { room_size, damping } => FxKnobs::Reverb {
                room: resting(Level::Linear(room_size)),
                damp: resting(Level::Linear(damping)),
            },
            FxParams::Delay { time_ms, feedback } => FxKnobs::Delay {
                time: resting(Level::Linear(time_ms)),
                feedback: resting(Level::Linear(feedback)),
            },
        },
        return_level: resting(Level::Db(unit.return_level_db)),
    }
}

/// What an output patch taps.
fn find_tap(state: &MixerState, source: OutputSource) -> (tap: Option<TapPoint>)
    ensures
        tap == tap_point(state@, source),
{
    match source {
        OutputSource::Strip { id } => match crate::console::mix::find_strip(&state.strips, id) {
            Some(i) => Some(TapPoint::Strip(i as u16)),
            None => None,
        },
        OutputSource::Bus { id } => match crate::console::mix::find_bus(&state.buses, id) {
            Some(i) => Some(TapPoint::Bus(i as u16)),
            None => None,
        },
        OutputSource::Master => Some(TapPoint::Master),
    }
}

/// The direct outs of the document.
fn collect_outs(state: &MixerState, outputs: &OutputSlots) -> (outs: Vec<DirectOut>)
    requires
        outputs.wf(),
    ensures
        outs@ == direct_outs(state@, outputs.ranges(), state@.outputs.len() as int),
{
    let ghost s = state@;
    let mut outs: Vec<DirectOut> = Vec::new();
    let mut j: usize = 0;
    while j < state.outputs.len()
        invariant
            s == state@,
            outputs.wf(),
            j <= state.outputs.len(),
            outs@ == direct_outs(s, outputs.ranges(), j as int),
        decreases state.outputs.len() - j,
    {
        let patch: &OutputPatch = &state.outputs[j];
        let name: Option<&str> = match &patch.device {
            Some(text) => Some(text.as_str()),
            None => None,
        };
        assert(name_of(name) == s.outputs[j as int].device);
        let channel: Option<u16> = outputs.resolve(name, patch.channel);
        let tap: Option<TapPoint> = find_tap(state, patch.source);
        let width: Option<u16> = state.source_channels(&patch.source);
        match (channel, tap, width) {
            (Some(channel), Some(source), Some(width)) => {
                if patch.source_channel < width {
                    outs.push(
                        DirectOut {
                            patch: j,
                            channel,
                            source,
                            side: patch.source_channel,
                            pre: patch.tap == SendTap::PreFader,
                        },
                    );
                }
            },
            _ => {},
        }
        j = j + 1;
    }
    outs
}

/// Flattens the document. A patch to a device that is not open is silence; a
/// direct out whose jack is not open is left out.
pub fn compile<D>(
    state: &MixerState,
    block_size: usize,
    inputs: &InputSlots,
    outputs: &OutputSlots,
    dsp: D,
) -> (out: CompileOutput<D>)
    requires
        inputs.wf(),
        outputs.wf(),
    ensures
        out.graph@ == graph_of(state@, block_size, inputs.ranges(), outputs.ranges()),
        out.graph.wf(),
        out.graph.dsp == dsp,
        out.params@ == tables_of(state@, outputs.ranges()).map,
        out.meter_keys@ == meter_keys_of(state@),
{
    let ghost s = state@;
    let aux: Vec<BusId> = collect_aux(&state.buses);
    let mut tables: TableBuilder = TableBuilder::new();
    let mut strips: Vec<StripNode> = Vec::new();
    let mut meter_keys: Vec<MeterKey> = Vec::new();
    let mut i: usize = 0;
    while i < state.strips.len()
        invariant
            s == state@,
            inputs.wf(),
            aux@ == aux_ids(s.buses),
            i <= state.strips.len(),
            tables@ == strips_entered(s.strips, aux@, i as int),
            strips@.len() == i,
            meter_keys@.len() == i,
            forall|j: int|
                0 <= j < i ==> (#[trigger] strips@[j])@ == strip_node(
                    s,
                    s.strips[j],
                    inputs.ranges(),
                ),
            forall|j: int|
                0 <= j < i ==> #[trigger] meter_keys@[j] == (MeterKey::Strip {
                    id: s.strips[j].id,
                }),
        decreases state.strips.len() - i,
    {
        let id: StripId = state.strips[i].id;
        tables.enter_strip(i as u16, id);
        tables.enter_sends(i as u16, id, &aux);
        strips.push(build_strip(state, i, &aux, inputs));
        meter_keys.push(MeterKey::Strip { id });
        i = i + 1;
    }
    meter_keys.push(MeterKey::Master);
    assert(meter_keys@ =~= meter_keys_of(s));
    tables.enter_buses(&state.buses);
    let mut buses: Vec<BusNode> = Vec::new();
    let mut i: usize = 0;
    while i < state.buses.len()
        invariant
            s == state@,
            i <= state.buses.len(),
            buses@.len() == i,
            forall|j: int| 0 <= j < i ==> #[trigger] buses@[j] == bus_node(s.buses[j]),
        decreases state.buses.len() - i,
    {
        let bus: &BusState = &state.buses[i];
        buses.push(
            BusNode {
                kind: bus.kind,
                fader: resting(Level::Db(bus.fader_db)),
                mute: resting(muted(bus.mute)),
                pfl: bus.pfl,
            },
        );
        i = i + 1;
    }
    tables.enter_fx(&state.fx);
    let mut fx: Vec<FxNode> = Vec::new();
    let mut i: usize = 0;
    while i < state.fx.len()
        invariant
            s == state@,
            i <= state.fx.len(),
            fx@.len() == i,
            forall|j: int| 0 <= j < i ==> #[trigger] fx@[j] == fx_node(s, s.fx[j]),
        decreases state.fx.len() - i,
    {
        fx.push(build_fx(state, i));
        i = i + 1;
    }
    tables.enter_master();
    let outs: Vec<DirectOut> = collect_outs(state, outputs);
    tables.enter_outs(&outs);
    let meter_count: usize = if meter_keys.len() < MAX_METERS {
        meter_keys.len()
    } else {
        MAX_METERS
    };
    proof {
        assert(views(strips@) =~= Seq::new(
            s.strips.len(),
            |i: int| strip_node(s, s.strips[i], inputs.ranges()),
        ));
        assert(buses@ =~= Seq::new(s.buses.len(), |i: int| bus_node(s.buses[i])));
        assert(fx@ =~= Seq::new(s.fx.len(), |i: int| fx_node(s, s.fx[i])));
    }
    let graph = CompiledGraph {
        block_size,
        strips,
        buses,
        fx,
        outs,
        master_fader: resting(Level::Db(state.master.fader_db)),
        params: tables.params,
        flags: tables.flags,
        eqs: tables.eqs,
        meter_count,
        dsp,
    };
    proof {
        assert(graph@ =~= graph_of(s, block_size, inputs.ranges(), outputs.ranges()));
        crate::engine::layout::compiled_tables_fit(
            s,
            block_size,
            inputs.ranges(),
            outputs.ranges(),
        );
    }
    CompileOutput { graph: Box::new(graph), params: tables.map, meter_keys }
}

} // verus!
