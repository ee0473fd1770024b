//! What a command leaves behind: the setting it names reads back, nothing else
//! differs, and a refusal has its reason.

use vstd::prelude::*;

use crate::console::bus::BusKind;
use crate::console::change::change;
use crate::console::change::dests;
use crate::console::command::DeltaView;
use crate::console::command::ErrorView;
use crate::console::command::FaderTarget;
use crate::console::command::MixCommand;
use crate::console::eq::EqBand;
use crate::console::eq::EqBandKind;
use crate::console::fx::FxParams;
use crate::console::id::BusId;
use crate::console::id::FxId;
use crate::console::id::InstrumentId;
use crate::console::id::StripId;
use crate::console::mix::bus_ids;
use crate::console::mix::fx_ids;
use crate::console::mix::instrument_ids;
use crate::console::mix::jacks;
use crate::console::mix::strip_ids;
use crate::console::mix::MixerView;
use crate::console::output::JackView;
use crate::console::strip::InputAssign;
use crate::console::strip::InputView;
use crate::console::strip::RouteTarget;
use crate::console::strip::SendState;
use crate::console::strip::SendTap;
use crate::seqs::lemma_absent;
use crate::seqs::lemma_first;
use crate::single::Single;

verus! {

/// The strip of that name is the one at `i`: the first with its number.
pub open spec fn strip_is(s: MixerView, id: StripId, i: int) -> bool {
    &&& 0 <= i < s.strips.len()
    &&& s.strips[i].id == id
    &&& forall|j: int| 0 <= j < i ==> (#[trigger] s.strips[j]).id != id
}

/// The bus of that name is the one at `i`.
pub open spec fn bus_is(s: MixerView, id: BusId, i: int) -> bool {
    &&& 0 <= i < s.buses.len()
    &&& s.buses[i].id == id
    &&& forall|j: int| 0 <= j < i ==> (#[trigger] s.buses[j]).id != id
}

/// The effects unit of that name is the one at `i`.
pub open spec fn fx_is(s: MixerView, id: FxId, i: int) -> bool {
    &&& 0 <= i < s.fx.len()
    &&& s.fx[i].id == id
    &&& forall|j: int| 0 <= j < i ==> (#[trigger] s.fx[j]).id != id
}

/// The instrument of that name is the one at `i`.
pub open spec fn instrument_is(s: MixerView, id: InstrumentId, i: int) -> bool {
    &&& 0 <= i < s.instruments.len()
    &&& s.instruments[i].id == id
    &&& forall|j: int| 0 <= j < i ==> (#[trigger] s.instruments[j]).id != id
}

/// The patch of that jack is the one at `i`.
pub open spec fn patch_is(s: MixerView, jack: JackView, i: int) -> bool {
    &&& 0 <= i < s.outputs.len()
    &&& s.outputs[i].device == jack.device
    &&& s.outputs[i].channel == jack.channel
    &&& forall|j: int|
        0 <= j < i ==> (#[trigger] s.outputs[j]).device != jack.device || s.outputs[j].channel
            != jack.channel
}

/// A number from one place on the line of single precision numbers to another. The
/// places of -90, -20, -15, -1, 0, 0.1, 0.95, 1, 10, 15, 20, 60, 2000 and 20000 are
/// the bits of their magnitudes, with the sign.
pub open spec fn from_to(low: int, value: Single, high: int) -> bool {
    !value.is_nan() && low <= value.rank() <= high
}

/// Nothing but the strip at `i` differs.
pub open spec fn only_strip(s: MixerView, next: MixerView, i: int) -> bool {
    &&& next.strips.len() == s.strips.len()
    &&& forall|j: int| 0 <= j < s.strips.len() && j != i ==> #[trigger] next.strips[j] == s.strips[j]
    &&& next.buses == s.buses
    &&& next.fx == s.fx
    &&& next.instruments == s.instruments
    &&& next.outputs == s.outputs
    &&& next.master == s.master
    &&& next.strip_mark == s.strip_mark
    &&& next.instrument_mark == s.instrument_mark
}

/// Nothing but the bus at `i` differs.
pub open spec fn only_bus(s: MixerView, next: MixerView, i: int) -> bool {
    &&& next.buses.len() == s.buses.len()
    &&& forall|j: int| 0 <= j < s.buses.len() && j != i ==> #[trigger] next.buses[j] == s.buses[j]
    &&& next.strips == s.strips
    &&& next.fx == s.fx
    &&& next.instruments == s.instruments
    &&& next.outputs == s.outputs
    &&& next.master == s.master
    &&& next.strip_mark == s.strip_mark
    &&& next.instrument_mark == s.instrument_mark
}

/// Nothing but the effects unit at `i` differs.
pub open spec fn only_fx(s: MixerView, next: MixerView, i: int) -> bool {
    &&& next.fx.len() == s.fx.len()
    &&& forall|j: int| 0 <= j < s.fx.len() && j != i ==> #[trigger] next.fx[j] == s.fx[j]
    &&& next.strips == s.strips
    &&& next.buses == s.buses
    &&& next.instruments == s.instruments
    &&& next.outputs == s.outputs
    &&& next.master == s.master
    &&& next.strip_mark == s.strip_mark
    &&& next.instrument_mark == s.instrument_mark
}

/// Nothing but the instrument at `i` differs.
pub open spec fn only_instrument(s: MixerView, next: MixerView, i: int) -> bool {
    &&& next.instruments.len() == s.instruments.len()
    &&& forall|j: int|
        0 <= j < s.instruments.len() && j != i ==> #[trigger] next.instruments[j]
            == s.instruments[j]
    &&& next.strips == s.strips
    &&& next.buses == s.buses
    &&& next.fx == s.fx
    &&& next.outputs == s.outputs
    &&& next.master == s.master
    &&& next.strip_mark == s.strip_mark
    &&& next.instrument_mark == s.instrument_mark
}

/// Nothing but the master differs.
pub open spec fn only_master(s: MixerView, next: MixerView) -> bool {
    &&& next.strips == s.strips
    &&& next.buses == s.buses
    &&& next.fx == s.fx
    &&& next.instruments == s.instruments
    &&& next.outputs == s.outputs
    &&& next.strip_mark == s.strip_mark
    &&& next.instrument_mark == s.instrument_mark
}

/// Nothing but the patches differs.
pub open spec fn only_outputs(s: MixerView, next: MixerView) -> bool {
    &&& next.strips == s.strips
    &&& next.buses == s.buses
    &&& next.fx == s.fx
    &&& next.instruments == s.instruments
    &&& next.master == s.master
    &&& next.strip_mark == s.strip_mark
    &&& next.instrument_mark == s.instrument_mark
}

pub(crate) proof fn lemma_strip_is(s: MixerView, id: StripId, i: int)
    requires
        strip_is(s, id, i),
    ensures
        s.strip_at(id) == Some(i),
{
    lemma_first(strip_ids(s.strips), id, i);
}

pub(crate) proof fn lemma_bus_is(s: MixerView, id: BusId, i: int)
    requires
        bus_is(s, id, i),
    ensures
        s.bus_at(id) == Some(i),
{
    lemma_first(bus_ids(s.buses), id, i);
}

pub(crate) proof fn lemma_fx_is(s: MixerView, id: FxId, i: int)
    requires
        fx_is(s, id, i),
    ensures
        s.fx_at(id) == Some(i),
{
    lemma_first(fx_ids(s.fx), id, i);
}

pub(crate) proof fn lemma_instrument_is(s: MixerView, id: InstrumentId, i: int)
    requires
        instrument_is(s, id, i),
    ensures
        s.instrument_at(id) == Some(i),
{
    lemma_first(instrument_ids(s.instruments), id, i);
}

pub(crate) proof fn lemma_patch_is(s: MixerView, jack: JackView, i: int)
    requires
        patch_is(s, jack, i),
    ensures
        s.output_at(jack) == Some(i),
{
    let keys = jacks(s.outputs);
    assert forall|j: int| 0 <= j < i implies keys[j] != jack by {
        assert(keys[j].device == s.outputs[j].device);
    }
    assert(keys[i] =~= jack);
    lemma_first(keys, jack, i);
}

/// The fader of a strip, from -90 to 10 dB, is where it was put.
pub proof fn a_strip_fader_reads_back(s: MixerView, i: int, id: StripId, level_db: Single)
    requires
        strip_is(s, id, i),
    ensures
        match change(s, MixCommand::SetFader { target: FaderTarget::Strip { id }, level_db }) {
            Ok((next, delta)) => {
                &&& from_to(-0x42B4_0000, level_db, 0x4120_0000)
                &&& only_strip(s, next, i)
                &&& next.strips[i].id == s.strips[i].id
                &&& next.strips[i].name == s.strips[i].name
                &&& next.strips[i].input == s.strips[i].input
                &&& next.strips[i].gain_db == s.strips[i].gain_db
                &&& next.strips[i].eq == s.strips[i].eq
                &&& next.strips[i].sends == s.strips[i].sends
                &&& next.strips[i].pan == s.strips[i].pan
                &&& next.strips[i].fader_db == level_db
                &&& next.strips[i].mute == s.strips[i].mute
                &&& next.strips[i].pfl == s.strips[i].pfl
                &&& next.strips[i].record_arm == s.strips[i].record_arm
                &&& next.strips[i].route_to == s.strips[i].route_to
                &&& delta == (DeltaView::Fader { target: FaderTarget::Strip { id }, level_db })
            },
            Err(e) => {
                &&& !(from_to(-0x42B4_0000, level_db, 0x4120_0000))
                &&& e == (ErrorView::OutOfRange { field: "level_db"@, value: level_db })
            },
        },
{
    lemma_strip_is(s, id, i);
}

/// The fader of a bus, from -90 to 10 dB, is where it was put.
pub proof fn a_bus_fader_reads_back(s: MixerView, i: int, id: BusId, level_db: Single)
    requires
        bus_is(s, id, i),
    ensures
        match change(s, MixCommand::SetFader { target: FaderTarget::Bus { id }, level_db }) {
            Ok((next, delta)) => {
                &&& from_to(-0x42B4_0000, level_db, 0x4120_0000)
                &&& only_bus(s, next, i)
                &&& next.buses[i].id == s.buses[i].id
                &&& next.buses[i].kind == s.buses[i].kind
                &&& next.buses[i].name == s.buses[i].name
                &&& next.buses[i].fader_db == level_db
                &&& next.buses[i].pan == s.buses[i].pan
                &&& next.buses[i].mute == s.buses[i].mute
                &&& next.buses[i].pfl == s.buses[i].pfl
                &&& delta == (DeltaView::Fader { target: FaderTarget::Bus { id }, level_db })
            },
            Err(e) => {
                &&& !(from_to(-0x42B4_0000, level_db, 0x4120_0000))
                &&& e == (ErrorView::OutOfRange { field: "level_db"@, value: level_db })
            },
        },
{
    lemma_bus_is(s, id, i);
}

/// The fader of the master, from -90 to 10 dB, is where it was put.
pub proof fn the_master_fader_reads_back(s: MixerView, level_db: Single)
    ensures
        match change(s, MixCommand::SetFader { target: FaderTarget::Master, level_db }) {
            Ok((next, delta)) => {
                &&& from_to(-0x42B4_0000, level_db, 0x4120_0000)
                &&& only_master(s, next)
                &&& next.master.fader_db == level_db
                &&& next.master.record_arm == s.master.record_arm
                &&& delta == (DeltaView::Fader { target: FaderTarget::Master, level_db })
            },
            Err(e) => {
                &&& !(from_to(-0x42B4_0000, level_db, 0x4120_0000))
                &&& e == (ErrorView::OutOfRange { field: "level_db"@, value: level_db })
            },
        },
{
}

/// The gain of a strip, from -20 to 60 dB, is what it was set to.
pub proof fn a_gain_reads_back(s: MixerView, i: int, id: StripId, gain_db: Single)
    requires
        strip_is(s, id, i),
    ensures
        match change(s, MixCommand::SetGain { strip: id, gain_db }) {
            Ok((next, delta)) => {
                &&& from_to(-0x41A0_0000, gain_db, 0x4270_0000)
                &&& only_strip(s, next, i)
                &&& next.strips[i].id == s.strips[i].id
                &&& next.strips[i].name == s.strips[i].name
                &&& next.strips[i].input == s.strips[i].input
                &&& next.strips[i].gain_db == gain_db
                &&& next.strips[i].eq == s.strips[i].eq
                &&& next.strips[i].sends == s.strips[i].sends
                &&& next.strips[i].pan == s.strips[i].pan
                &&& next.strips[i].fader_db == s.strips[i].fader_db
                &&& next.strips[i].mute == s.strips[i].mute
                &&& next.strips[i].pfl == s.strips[i].pfl
                &&& next.strips[i].record_arm == s.strips[i].record_arm
                &&& next.strips[i].route_to == s.strips[i].route_to
                &&& delta == (DeltaView::Gain { strip: id, gain_db })
            },
            Err(e) => {
                &&& !(from_to(-0x41A0_0000, gain_db, 0x4270_0000))
                &&& e == (ErrorView::OutOfRange { field: "gain_db"@, value: gain_db })
            },
        },
{
    lemma_strip_is(s, id, i);
}

/// The low shelf holds the frequency, from 20 to 20000 Hz, the gain, within 15 dB,
/// and the Q, from 0.1 to 10, that it was given. The other two bands stay.
pub proof fn the_low_band_reads_back(s: MixerView, i: int, id: StripId, freq_hz: Single, gain_db: Single, q: Single)
    requires
        strip_is(s, id, i),
    ensures
        match change(s, MixCommand::SetEqBand { strip: id, band: EqBandKind::LowShelf, freq_hz, gain_db, q }) {
            Ok((next, delta)) => {
                &&& from_to(0x41A0_0000, freq_hz, 0x469C_4000) && from_to(-0x4170_0000, gain_db, 0x4170_0000) && from_to(0x3DCC_CCCD, q, 0x4120_0000)
                &&& only_strip(s, next, i)
                &&& next.strips[i].id == s.strips[i].id
                &&& next.strips[i].name == s.strips[i].name
                &&& next.strips[i].input == s.strips[i].input
                &&& next.strips[i].gain_db == s.strips[i].gain_db
                &&& next.strips[i].eq.low.kind == s.strips[i].eq.low.kind
                &&& next.strips[i].eq.low.freq_hz == freq_hz
                &&& next.strips[i].eq.low.gain_db == gain_db
                &&& next.strips[i].eq.low.q == q
                &&& next.strips[i].eq.mid == s.strips[i].eq.mid
                &&& next.strips[i].eq.high == s.strips[i].eq.high
                &&& next.strips[i].eq.enabled == s.strips[i].eq.enabled
                &&& next.strips[i].sends == s.strips[i].sends
                &&& next.strips[i].pan == s.strips[i].pan
                &&& next.strips[i].fader_db == s.strips[i].fader_db
                &&& next.strips[i].mute == s.strips[i].mute
                &&& next.strips[i].pfl == s.strips[i].pfl
                &&& next.strips[i].record_arm == s.strips[i].record_arm
                &&& next.strips[i].route_to == s.strips[i].route_to
                &&& delta == (DeltaView::EqBand { strip: id, band: EqBandKind::LowShelf, freq_hz, gain_db, q })
            },
            Err(e) => {
                &&& !(from_to(0x41A0_0000, freq_hz, 0x469C_4000) && from_to(-0x4170_0000, gain_db, 0x4170_0000) && from_to(0x3DCC_CCCD, q, 0x4120_0000))
                &&& !from_to(0x41A0_0000, freq_hz, 0x469C_4000) ==> e == (ErrorView::OutOfRange { field: "freq_hz"@, value: freq_hz })
                &&& from_to(0x41A0_0000, freq_hz, 0x469C_4000) && !from_to(-0x4170_0000, gain_db, 0x4170_0000) ==> e == (ErrorView::OutOfRange { field: "gain_db"@, value: gain_db })
                &&& from_to(0x41A0_0000, freq_hz, 0x469C_4000) && from_to(-0x4170_0000, gain_db, 0x4170_0000) ==> e == (ErrorView::OutOfRange { field: "q"@, value: q })
            },
        },
{
    lemma_strip_is(s, id, i);
}

/// The mid peak holds the frequency, from 20 to 20000 Hz, the gain, within 15 dB,
/// and the Q, from 0.1 to 10, that it was given. The other two bands stay.
pub proof fn the_mid_band_reads_back(s: MixerView, i: int, id: StripId, freq_hz: Single, gain_db: Single, q: Single)
    requires
        strip_is(s, id, i),
    ensures
        match change(s, MixCommand::SetEqBand { strip: id, band: EqBandKind::Peak, freq_hz, gain_db, q }) {
            Ok((next, delta)) => {
                &&& from_to(0x41A0_0000, freq_hz, 0x469C_4000) && from_to(-0x4170_0000, gain_db, 0x4170_0000) && from_to(0x3DCC_CCCD, q, 0x4120_0000)
                &&& only_strip(s, next, i)
                &&& next.strips[i].id == s.strips[i].id
                &&& next.strips[i].name == s.strips[i].name
                &&& next.strips[i].input == s.strips[i].input
                &&& next.strips[i].gain_db == s.strips[i].gain_db
                &&& next.strips[i].eq.low == s.strips[i].eq.low
                &&& next.strips[i].eq.mid.kind == s.strips[i].eq.mid.kind
                &&& next.strips[i].eq.mid.freq_hz == freq_hz
                &&& next.strips[i].eq.mid.gain_db == gain_db
                &&& next.strips[i].eq.mid.q == q
                &&& next.strips[i].eq.high == s.strips[i].eq.high
                &&& next.strips[i].eq.enabled == s.strips[i].eq.enabled
                &&& next.strips[i].sends == s.strips[i].sends
                &&& next.strips[i].pan == s.strips[i].pan
                &&& next.strips[i].fader_db == s.strips[i].fader_db
                &&& next.strips[i].mute == s.strips[i].mute
                &&& next.strips[i].pfl == s.strips[i].pfl
                &&& next.strips[i].record_arm == s.strips[i].record_arm
                &&& next.strips[i].route_to == s.strips[i].route_to
                &&& delta == (DeltaView::EqBand { strip: id, band: EqBandKind::Peak, freq_hz, gain_db, q })
            },
            Err(e) => {
                &&& !(from_to(0x41A0_0000, freq_hz, 0x469C_4000) && from_to(-0x4170_0000, gain_db, 0x4170_0000) && from_to(0x3DCC_CCCD, q, 0x4120_0000))
                &&& !from_to(0x41A0_0000, freq_hz, 0x469C_4000) ==> e == (ErrorView::OutOfRange { field: "freq_hz"@, value: freq_hz })
                &&& from_to(0x41A0_0000, freq_hz, 0x469C_4000) && !from_to(-0x4170_0000, gain_db, 0x4170_0000) ==> e == (ErrorView::OutOfRange { field: "gain_db"@, value: gain_db })
                &&& from_to(0x41A0_0000, freq_hz, 0x469C_4000) && from_to(-0x4170_0000, gain_db, 0x4170_0000) ==> e == (ErrorView::OutOfRange { field: "q"@, value: q })
            },
        },
{
    lemma_strip_is(s, id, i);
}

/// The high shelf holds the frequency, from 20 to 20000 Hz, the gain, within 15 dB,
/// and the Q, from 0.1 to 10, that it was given. The other two bands stay.
pub proof fn the_high_band_reads_back(s: MixerView, i: int, id: StripId, freq_hz: Single, gain_db: Single, q: Single)
    requires
        strip_is(s, id, i),
    ensures
        match change(s, MixCommand::SetEqBand { strip: id, band: EqBandKind::HighShelf, freq_hz, gain_db, q }) {
            Ok((next, delta)) => {
                &&& from_to(0x41A0_0000, freq_hz, 0x469C_4000) && from_to(-0x4170_0000, gain_db, 0x4170_0000) && from_to(0x3DCC_CCCD, q, 0x4120_0000)
                &&& only_strip(s, next, i)
                &&& next.strips[i].id == s.strips[i].id
                &&& next.strips[i].name == s.strips[i].name
                &&& next.strips[i].input == s.strips[i].input
                &&& next.strips[i].gain_db == s.strips[i].gain_db
                &&& next.strips[i].eq.low == s.strips[i].eq.low
                &&& next.strips[i].eq.mid == s.strips[i].eq.mid
                &&& next.strips[i].eq.high.kind == s.strips[i].eq.high.kind
                &&& next.strips[i].eq.high.freq_hz == freq_hz
                &&& next.strips[i].eq.high.gain_db == gain_db
                &&& next.strips[i].eq.high.q == q
                &&& next.strips[i].eq.enabled == s.strips[i].eq.enabled
                &&& next.strips[i].sends == s.strips[i].sends
                &&& next.strips[i].pan == s.strips[i].pan
                &&& next.strips[i].fader_db == s.strips[i].fader_db
                &&& next.strips[i].mute == s.strips[i].mute
                &&& next.strips[i].pfl == s.strips[i].pfl
                &&& next.strips[i].record_arm == s.strips[i].record_arm
                &&& next.strips[i].route_to == s.strips[i].route_to
                &&& delta == (DeltaView::EqBand { strip: id, band: EqBandKind::HighShelf, freq_hz, gain_db, q })
            },
            Err(e) => {
                &&& !(from_to(0x41A0_0000, freq_hz, 0x469C_4000) && from_to(-0x4170_0000, gain_db, 0x4170_0000) && from_to(0x3DCC_CCCD, q, 0x4120_0000))
                &&& !from_to(0x41A0_0000, freq_hz, 0x469C_4000) ==> e == (ErrorView::OutOfRange { field: "freq_hz"@, value: freq_hz })
                &&& from_to(0x41A0_0000, freq_hz, 0x469C_4000) && !from_to(-0x4170_0000, gain_db, 0x4170_0000) ==> e == (ErrorView::OutOfRange { field: "gain_db"@, value: gain_db })
                &&& from_to(0x41A0_0000, freq_hz, 0x469C_4000) && from_to(-0x4170_0000, gain_db, 0x4170_0000) ==> e == (ErrorView::OutOfRange { field: "q"@, value: q })
            },
        },
{
    lemma_strip_is(s, id, i);
}

/// In an equaliser whose three bands are of the three kinds, the band that a command
/// names is the one of that kind, and the others keep what they hold.
pub proof fn the_band_of_a_kind_reads_back(s: MixerView, i: int, id: StripId, band: EqBandKind, freq_hz: Single, gain_db: Single, q: Single)
    requires
        strip_is(s, id, i),
        s.strips[i].eq.low.kind == EqBandKind::LowShelf,
        s.strips[i].eq.mid.kind == EqBandKind::Peak,
        s.strips[i].eq.high.kind == EqBandKind::HighShelf,
    ensures
        change(s, MixCommand::SetEqBand { strip: id, band, freq_hz, gain_db, q }) matches Ok(
            (next, _),
        ) ==> {
            let before = seq![s.strips[i].eq.low, s.strips[i].eq.mid, s.strips[i].eq.high];
            let after = seq![
                next.strips[i].eq.low,
                next.strips[i].eq.mid,
                next.strips[i].eq.high,
            ];
            forall|b: int|
                0 <= b < 3 ==> if before[b].kind == band {
                    #[trigger] after[b] == (EqBand { kind: band, freq_hz, gain_db, q })
                } else {
                    after[b] == before[b]
                }
        },
{
    lemma_strip_is(s, id, i);
}

/// The equaliser of a strip is on or off as told.
pub proof fn an_eq_switch_reads_back(s: MixerView, i: int, id: StripId, enabled: bool)
    requires
        strip_is(s, id, i),
    ensures
        match change(s, MixCommand::SetEqEnabled { strip: id, enabled }) {
            Ok((next, delta)) => {
                &&& only_strip(s, next, i)
                &&& next.strips[i].id == s.strips[i].id
                &&& next.strips[i].name == s.strips[i].name
                &&& next.strips[i].input == s.strips[i].input
                &&& next.strips[i].gain_db == s.strips[i].gain_db
                &&& next.strips[i].eq.enabled == enabled
                &&& next.strips[i].eq.low == s.strips[i].eq.low
                &&& next.strips[i].eq.mid == s.strips[i].eq.mid
                &&& next.strips[i].eq.high == s.strips[i].eq.high
                &&& next.strips[i].sends == s.strips[i].sends
                &&& next.strips[i].pan == s.strips[i].pan
                &&& next.strips[i].fader_db == s.strips[i].fader_db
                &&& next.strips[i].mute == s.strips[i].mute
                &&& next.strips[i].pfl == s.strips[i].pfl
                &&& next.strips[i].record_arm == s.strips[i].record_arm
                &&& next.strips[i].route_to == s.strips[i].route_to
                &&& delta == (DeltaView::EqEnabled { strip: id, enabled })
            },
            Err(_) => false,
        },
{
    lemma_strip_is(s, id, i);
}

/// The pan of a strip, from -1 to 1, is what it was set to.
pub proof fn a_pan_reads_back(s: MixerView, i: int, id: StripId, pan: Single)
    requires
        strip_is(s, id, i),
    ensures
        match change(s, MixCommand::SetPan { strip: id, pan }) {
            Ok((next, delta)) => {
                &&& from_to(-0x3F80_0000, pan, 0x3F80_0000)
                &&& only_strip(s, next, i)
                &&& next.strips[i].id == s.strips[i].id
                &&& next.strips[i].name == s.strips[i].name
                &&& next.strips[i].input == s.strips[i].input
                &&& next.strips[i].gain_db == s.strips[i].gain_db
                &&& next.strips[i].eq == s.strips[i].eq
                &&& next.strips[i].sends == s.strips[i].sends
                &&& next.strips[i].pan == pan
                &&& next.strips[i].fader_db == s.strips[i].fader_db
                &&& next.strips[i].mute == s.strips[i].mute
                &&& next.strips[i].pfl == s.strips[i].pfl
                &&& next.strips[i].record_arm == s.strips[i].record_arm
                &&& next.strips[i].route_to == s.strips[i].route_to
                &&& delta == (DeltaView::Pan { strip: id, pan })
            },
            Err(e) => {
                &&& !(from_to(-0x3F80_0000, pan, 0x3F80_0000))
                &&& e == (ErrorView::OutOfRange { field: "pan"@, value: pan })
            },
        },
{
    lemma_strip_is(s, id, i);
}

/// The mute of a strip is as told.
pub proof fn a_strip_mute_reads_back(s: MixerView, i: int, id: StripId, mute: bool)
    requires
        strip_is(s, id, i),
    ensures
        match change(s, MixCommand::SetMute { target: FaderTarget::Strip { id }, mute }) {
            Ok((next, delta)) => {
                &&& only_strip(s, next, i)
                &&& next.strips[i].id == s.strips[i].id
                &&& next.strips[i].name == s.strips[i].name
                &&& next.strips[i].input == s.strips[i].input
                &&& next.strips[i].gain_db == s.strips[i].gain_db
                &&& next.strips[i].eq == s.strips[i].eq
                &&& next.strips[i].sends == s.strips[i].sends
                &&& next.strips[i].pan == s.strips[i].pan
                &&& next.strips[i].fader_db == s.strips[i].fader_db
                &&& next.strips[i].mute == mute
                &&& next.strips[i].pfl == s.strips[i].pfl
                &&& next.strips[i].record_arm == s.strips[i].record_arm
                &&& next.strips[i].route_to == s.strips[i].route_to
                &&& delta == (DeltaView::Mute { target: FaderTarget::Strip { id }, mute })
            },
            Err(_) => false,
        },
{
    lemma_strip_is(s, id, i);
}

/// The mute of a bus is as told.
pub proof fn a_bus_mute_reads_back(s: MixerView, i: int, id: BusId, mute: bool)
    requires
        bus_is(s, id, i),
    ensures
        match change(s, MixCommand::SetMute { target: FaderTarget::Bus { id }, mute }) {
            Ok((next, delta)) => {
                &&& only_bus(s, next, i)
                &&& next.buses[i].id == s.buses[i].id
                &&& next.buses[i].kind == s.buses[i].kind
                &&& next.buses[i].name == s.buses[i].name
                &&& next.buses[i].fader_db == s.buses[i].fader_db
                &&& next.buses[i].pan == s.buses[i].pan
                &&& next.buses[i].mute == mute
                &&& next.buses[i].pfl == s.buses[i].pfl
                &&& delta == (DeltaView::Mute { target: FaderTarget::Bus { id }, mute })
            },
            Err(_) => false,
        },
{
    lemma_bus_is(s, id, i);
}

/// The PFL of a strip is as told.
pub proof fn a_strip_pfl_reads_back(s: MixerView, i: int, id: StripId, on: bool)
    requires
        strip_is(s, id, i),
    ensures
        match change(s, MixCommand::SetPfl { target: FaderTarget::Strip { id }, on }) {
            Ok((next, delta)) => {
                &&& only_strip(s, next, i)
                &&& next.strips[i].id == s.strips[i].id
                &&& next.strips[i].name == s.strips[i].name
                &&& next.strips[i].input == s.strips[i].input
                &&& next.strips[i].gain_db == s.strips[i].gain_db
                &&& next.strips[i].eq == s.strips[i].eq
                &&& next.strips[i].sends == s.strips[i].sends
                &&& next.strips[i].pan == s.strips[i].pan
                &&& next.strips[i].fader_db == s.strips[i].fader_db
                &&& next.strips[i].mute == s.strips[i].mute
                &&& next.strips[i].pfl == on
                &&& next.strips[i].record_arm == s.strips[i].record_arm
                &&& next.strips[i].route_to == s.strips[i].route_to
                &&& delta == (DeltaView::Pfl { target: FaderTarget::Strip { id }, on })
            },
            Err(_) => false,
        },
{
    lemma_strip_is(s, id, i);
}

/// The PFL of a bus is as told.
pub proof fn a_bus_pfl_reads_back(s: MixerView, i: int, id: BusId, on: bool)
    requires
        bus_is(s, id, i),
    ensures
        match change(s, MixCommand::SetPfl { target: FaderTarget::Bus { id }, on }) {
            Ok((next, delta)) => {
                &&& only_bus(s, next, i)
                &&& next.buses[i].id == s.buses[i].id
                &&& next.buses[i].kind == s.buses[i].kind
                &&& next.buses[i].name == s.buses[i].name
                &&& next.buses[i].fader_db == s.buses[i].fader_db
                &&& next.buses[i].pan == s.buses[i].pan
                &&& next.buses[i].mute == s.buses[i].mute
                &&& next.buses[i].pfl == on
                &&& delta == (DeltaView::Pfl { target: FaderTarget::Bus { id }, on })
            },
            Err(_) => false,
        },
{
    lemma_bus_is(s, id, i);
}

/// A strip is armed as told.
pub proof fn a_record_arm_reads_back(s: MixerView, i: int, id: StripId, armed: bool)
    requires
        strip_is(s, id, i),
    ensures
        match change(s, MixCommand::SetRecordArm { target: FaderTarget::Strip { id }, armed }) {
            Ok((next, delta)) => {
                &&& only_strip(s, next, i)
                &&& next.strips[i].id == s.strips[i].id
                &&& next.strips[i].name == s.strips[i].name
                &&& next.strips[i].input == s.strips[i].input
                &&& next.strips[i].gain_db == s.strips[i].gain_db
                &&& next.strips[i].eq == s.strips[i].eq
                &&& next.strips[i].sends == s.strips[i].sends
                &&& next.strips[i].pan == s.strips[i].pan
                &&& next.strips[i].fader_db == s.strips[i].fader_db
                &&& next.strips[i].mute == s.strips[i].mute
                &&& next.strips[i].pfl == s.strips[i].pfl
                &&& next.strips[i].record_arm == armed
                &&& next.strips[i].route_to == s.strips[i].route_to
                &&& delta == (DeltaView::RecordArm { target: FaderTarget::Strip { id }, armed })
            },
            Err(_) => false,
        },
{
    lemma_strip_is(s, id, i);
}

/// The master is armed as told.
pub proof fn the_master_record_arm_reads_back(s: MixerView, armed: bool)
    ensures
        match change(s, MixCommand::SetRecordArm { target: FaderTarget::Master, armed }) {
            Ok((next, delta)) => {
                &&& only_master(s, next)
                &&& next.master.fader_db == s.master.fader_db
                &&& next.master.record_arm == armed
                &&& delta == (DeltaView::RecordArm { target: FaderTarget::Master, armed })
            },
            Err(_) => false,
        },
{
}

/// The master has no mute, no PFL and no tape, and a bus is not recorded.
pub proof fn what_the_desk_does_not_offer(s: MixerView, id: BusId, on: bool)
    ensures
        change(s, MixCommand::SetMute { target: FaderTarget::Master, mute: on }) == Err::<
            (MixerView, DeltaView),
            ErrorView,
        >(ErrorView::Unsupported("master has no mute"@)),
        change(s, MixCommand::SetPfl { target: FaderTarget::Master, on }) == Err::<
            (MixerView, DeltaView),
            ErrorView,
        >(ErrorView::Unsupported("master has no PFL"@)),
        change(s, MixCommand::SetRecordArm { target: FaderTarget::Bus { id }, armed: on }) == Err::<
            (MixerView, DeltaView),
            ErrorView,
        >(ErrorView::Unsupported("buses are not recorded in v1"@)),
{
}

/// Every strip is armed as told, and the master keeps its own.
pub proof fn arming_all_arms_every_strip(s: MixerView, armed: bool)
    ensures
        match change(s, MixCommand::SetRecordArmAll { armed }) {
            Ok((next, delta)) => {
                &&& next.strips.len() == s.strips.len()
                &&& forall|i: int|
                    #![trigger next.strips[i]]
                    0 <= i < s.strips.len() ==> {
                        &&& next.strips[i].id == s.strips[i].id
                        &&& next.strips[i].name == s.strips[i].name
                        &&& next.strips[i].input == s.strips[i].input
                        &&& next.strips[i].gain_db == s.strips[i].gain_db
                        &&& next.strips[i].eq == s.strips[i].eq
                        &&& next.strips[i].sends == s.strips[i].sends
                        &&& next.strips[i].pan == s.strips[i].pan
                        &&& next.strips[i].fader_db == s.strips[i].fader_db
                        &&& next.strips[i].mute == s.strips[i].mute
                        &&& next.strips[i].pfl == s.strips[i].pfl
                        &&& next.strips[i].record_arm == armed
                        &&& next.strips[i].route_to == s.strips[i].route_to
                    }
                &&& next.buses == s.buses
                &&& next.fx == s.fx
                &&& next.instruments == s.instruments
                &&& next.outputs == s.outputs
                &&& next.master == s.master
                &&& next.strip_mark == s.strip_mark
                &&& next.instrument_mark == s.instrument_mark
                &&& delta == (DeltaView::RecordArmAll { armed })
            },
            Err(_) => false,
        },
{
}

/// A strip hears what it was patched to.
pub proof fn an_input_reads_back(s: MixerView, i: int, id: StripId, input: Option<InputAssign>)
    requires
        strip_is(s, id, i),
    ensures
        match change(s, MixCommand::SetInput { strip: id, input }) {
            Ok((next, delta)) => {
                &&& only_strip(s, next, i)
                &&& next.strips[i].id == s.strips[i].id
                &&& next.strips[i].name == s.strips[i].name
                &&& next.strips[i].input == (match input {
                    None => None::<InputView>,
                    Some(assign) => Some(assign@),
                })
                &&& next.strips[i].gain_db == s.strips[i].gain_db
                &&& next.strips[i].eq == s.strips[i].eq
                &&& next.strips[i].sends == s.strips[i].sends
                &&& next.strips[i].pan == s.strips[i].pan
                &&& next.strips[i].fader_db == s.strips[i].fader_db
                &&& next.strips[i].mute == s.strips[i].mute
                &&& next.strips[i].pfl == s.strips[i].pfl
                &&& next.strips[i].record_arm == s.strips[i].record_arm
                &&& next.strips[i].route_to == s.strips[i].route_to
                &&& delta == (DeltaView::Input {
                    strip: id,
                    input: (match input {
                        None => None::<InputView>,
                        Some(assign) => Some(assign@),
                    }),
                })
            },
            Err(_) => false,
        },
{
    lemma_strip_is(s, id, i);
}

/// A send that a strip has toward an aux bus takes the level, from -90 to 10 dB, and
/// the tap it is given. The other sends stay.
pub proof fn a_send_reads_back(s: MixerView, i: int, id: StripId, b: int, k: int, dest: BusId, level_db: Single, tap: SendTap)
    requires
        strip_is(s, id, i),
        bus_is(s, dest, b),
        s.buses[b].kind == BusKind::Aux,
        0 <= k < s.strips[i].sends.len(),
        s.strips[i].sends[k].dest == dest,
        forall|j: int| 0 <= j < k ==> (#[trigger] s.strips[i].sends[j]).dest != dest,
    ensures
        match change(s, MixCommand::SetSend { strip: id, dest, level_db, tap }) {
            Ok((next, delta)) => {
                &&& from_to(-0x42B4_0000, level_db, 0x4120_0000)
                &&& only_strip(s, next, i)
                &&& next.strips[i].id == s.strips[i].id
                &&& next.strips[i].name == s.strips[i].name
                &&& next.strips[i].input == s.strips[i].input
                &&& next.strips[i].gain_db == s.strips[i].gain_db
                &&& next.strips[i].eq == s.strips[i].eq
                &&& next.strips[i].pan == s.strips[i].pan
                &&& next.strips[i].fader_db == s.strips[i].fader_db
                &&& next.strips[i].mute == s.strips[i].mute
                &&& next.strips[i].pfl == s.strips[i].pfl
                &&& next.strips[i].record_arm == s.strips[i].record_arm
                &&& next.strips[i].route_to == s.strips[i].route_to
                &&& next.strips[i].sends.len() == s.strips[i].sends.len()
                &&& next.strips[i].sends[k].dest == dest
                &&& next.strips[i].sends[k].level_db == level_db
                &&& next.strips[i].sends[k].tap == tap
                &&& forall|j: int|
                    0 <= j < s.strips[i].sends.len() && j != k ==> #[trigger] next.strips[i].sends[j]
                        == s.strips[i].sends[j]
                &&& delta == (DeltaView::Send { strip: id, dest, level_db, tap })
            },
            Err(e) => {
                &&& !(from_to(-0x42B4_0000, level_db, 0x4120_0000))
                &&& e == (ErrorView::OutOfRange { field: "level_db"@, value: level_db })
            },
        },
{
    lemma_strip_is(s, id, i);
    lemma_bus_is(s, dest, b);
    lemma_first(dests(s.strips[i].sends), dest, k);
}

/// A strip without a send toward an aux bus gets one behind those it has.
pub proof fn a_new_send_reads_back(s: MixerView, i: int, id: StripId, b: int, dest: BusId, level_db: Single, tap: SendTap)
    requires
        strip_is(s, id, i),
        bus_is(s, dest, b),
        s.buses[b].kind == BusKind::Aux,
        forall|j: int| 0 <= j < s.strips[i].sends.len() ==> (#[trigger] s.strips[i].sends[j]).dest != dest,
    ensures
        match change(s, MixCommand::SetSend { strip: id, dest, level_db, tap }) {
            Ok((next, delta)) => {
                &&& from_to(-0x42B4_0000, level_db, 0x4120_0000)
                &&& only_strip(s, next, i)
                &&& next.strips[i].id == s.strips[i].id
                &&& next.strips[i].name == s.strips[i].name
                &&& next.strips[i].input == s.strips[i].input
                &&& next.strips[i].gain_db == s.strips[i].gain_db
                &&& next.strips[i].eq == s.strips[i].eq
                &&& next.strips[i].pan == s.strips[i].pan
                &&& next.strips[i].fader_db == s.strips[i].fader_db
                &&& next.strips[i].mute == s.strips[i].mute
                &&& next.strips[i].pfl == s.strips[i].pfl
                &&& next.strips[i].record_arm == s.strips[i].record_arm
                &&& next.strips[i].route_to == s.strips[i].route_to
                &&& next.strips[i].sends == s.strips[i].sends.push(SendState { dest, level_db, tap })
                &&& delta == (DeltaView::Send { strip: id, dest, level_db, tap })
            },
            Err(e) => {
                &&& !(from_to(-0x42B4_0000, level_db, 0x4120_0000))
                &&& e == (ErrorView::OutOfRange { field: "level_db"@, value: level_db })
            },
        },
{
    lemma_strip_is(s, id, i);
    lemma_bus_is(s, dest, b);
    lemma_absent(dests(s.strips[i].sends), dest);
}

/// No strip sends to a group.
pub proof fn a_send_wants_an_aux_bus(s: MixerView, strip: StripId, b: int, dest: BusId, level_db: Single, tap: SendTap)
    requires
        bus_is(s, dest, b),
        s.buses[b].kind == BusKind::Group,
        from_to(-0x42B4_0000, level_db, 0x4120_0000),
    ensures
        change(s, MixCommand::SetSend { strip, dest, level_db, tap }) == Err::<
            (MixerView, DeltaView),
            ErrorView,
        >(ErrorView::Unsupported("sends target aux buses only"@)),
{
    lemma_bus_is(s, dest, b);
}

/// A strip goes to the master where it is routed there.
pub proof fn a_route_to_the_master_reads_back(s: MixerView, i: int, id: StripId)
    requires
        strip_is(s, id, i),
    ensures
        match change(s, MixCommand::SetRoute { strip: id, to: RouteTarget::Master }) {
            Ok((next, delta)) => {
                &&& only_strip(s, next, i)
                &&& next.strips[i].id == s.strips[i].id
                &&& next.strips[i].name == s.strips[i].name
                &&& next.strips[i].input == s.strips[i].input
                &&& next.strips[i].gain_db == s.strips[i].gain_db
                &&& next.strips[i].eq == s.strips[i].eq
                &&& next.strips[i].sends == s.strips[i].sends
                &&& next.strips[i].pan == s.strips[i].pan
                &&& next.strips[i].fader_db == s.strips[i].fader_db
                &&& next.strips[i].mute == s.strips[i].mute
                &&& next.strips[i].pfl == s.strips[i].pfl
                &&& next.strips[i].record_arm == s.strips[i].record_arm
                &&& next.strips[i].route_to == RouteTarget::Master
                &&& delta == (DeltaView::Route { strip: id, to: RouteTarget::Master })
            },
            Err(_) => false,
        },
{
    lemma_strip_is(s, id, i);
}

/// A strip goes to the group it is routed to, and to no aux bus.
pub proof fn a_route_to_a_group_reads_back(s: MixerView, i: int, id: StripId, b: int, dest: BusId)
    requires
        strip_is(s, id, i),
        bus_is(s, dest, b),
    ensures
        match change(s, MixCommand::SetRoute { strip: id, to: RouteTarget::Bus { id: dest } }) {
            Ok((next, delta)) => {
                &&& s.buses[b].kind == BusKind::Group
                &&& only_strip(s, next, i)
                &&& next.strips[i].id == s.strips[i].id
                &&& next.strips[i].name == s.strips[i].name
                &&& next.strips[i].input == s.strips[i].input
                &&& next.strips[i].gain_db == s.strips[i].gain_db
                &&& next.strips[i].eq == s.strips[i].eq
                &&& next.strips[i].sends == s.strips[i].sends
                &&& next.strips[i].pan == s.strips[i].pan
                &&& next.strips[i].fader_db == s.strips[i].fader_db
                &&& next.strips[i].mute == s.strips[i].mute
                &&& next.strips[i].pfl == s.strips[i].pfl
                &&& next.strips[i].record_arm == s.strips[i].record_arm
                &&& next.strips[i].route_to == (RouteTarget::Bus { id: dest })
                &&& delta == (DeltaView::Route { strip: id, to: RouteTarget::Bus { id: dest } })
            },
            Err(e) => {
                &&& !(s.buses[b].kind == BusKind::Group)
                &&& e == ErrorView::Unsupported("strips route to master or groups"@)
            },
        },
{
    lemma_strip_is(s, id, i);
    lemma_bus_is(s, dest, b);
}

/// The return of an effects unit, from -90 to 10 dB, is where it was put.
pub proof fn an_fx_return_reads_back(s: MixerView, i: int, id: FxId, level_db: Single)
    requires
        fx_is(s, id, i),
    ensures
        match change(s, MixCommand::SetFxReturn { fx: id, level_db }) {
            Ok((next, delta)) => {
                &&& from_to(-0x42B4_0000, level_db, 0x4120_0000)
                &&& only_fx(s, next, i)
                &&& next.fx[i].id == s.fx[i].id
                &&& next.fx[i].name == s.fx[i].name
                &&& next.fx[i].input == s.fx[i].input
                &&& next.fx[i].params == s.fx[i].params
                &&& next.fx[i].return_level_db == level_db
                &&& delta == (DeltaView::FxReturn { fx: id, level_db })
            },
            Err(e) => {
                &&& !(from_to(-0x42B4_0000, level_db, 0x4120_0000))
                &&& e == (ErrorView::OutOfRange { field: "level_db"@, value: level_db })
            },
        },
{
    lemma_fx_is(s, id, i);
}

/// A reverb takes a room size and a damping from 0 to 1, and stays a reverb.
pub proof fn reverb_knobs_read_back(s: MixerView, i: int, id: FxId, room_size: Single, damping: Single)
    requires
        fx_is(s, id, i),
    ensures
        match change(s, MixCommand::SetFxParams { fx: id, params: FxParams::Reverb { room_size, damping } }) {
            Ok((next, delta)) => {
                &&& from_to(0, room_size, 0x3F80_0000) && from_to(0, damping, 0x3F80_0000) && s.fx[i].params is Reverb
                &&& only_fx(s, next, i)
                &&& next.fx[i].id == s.fx[i].id
                &&& next.fx[i].name == s.fx[i].name
                &&& next.fx[i].input == s.fx[i].input
                &&& next.fx[i].params == (FxParams::Reverb { room_size, damping })
                &&& next.fx[i].return_level_db == s.fx[i].return_level_db
                &&& delta == (DeltaView::FxParams { fx: id, params: FxParams::Reverb { room_size, damping } })
            },
            Err(e) => {
                &&& !(from_to(0, room_size, 0x3F80_0000) && from_to(0, damping, 0x3F80_0000) && s.fx[i].params is Reverb)
                &&& !from_to(0, room_size, 0x3F80_0000) ==> e == (ErrorView::OutOfRange { field: "room_size"@, value: room_size })
                &&& from_to(0, room_size, 0x3F80_0000) && !from_to(0, damping, 0x3F80_0000) ==> e == (ErrorView::OutOfRange { field: "damping"@, value: damping })
                &&& from_to(0, room_size, 0x3F80_0000) && from_to(0, damping, 0x3F80_0000) ==> e == ErrorView::Unsupported("an FX unit cannot change kind"@)
            },
        },
{
    lemma_fx_is(s, id, i);
}

/// A delay takes a time from 1 to 2000 ms and a feedback from 0 to 0.95, and stays a
/// delay.
pub proof fn delay_knobs_read_back(s: MixerView, i: int, id: FxId, time_ms: Single, feedback: Single)
    requires
        fx_is(s, id, i),
    ensures
        match change(s, MixCommand::SetFxParams { fx: id, params: FxParams::Delay { time_ms, feedback } }) {
            Ok((next, delta)) => {
                &&& from_to(0x3F80_0000, time_ms, 0x44FA_0000) && from_to(0, feedback, 0x3F73_3333) && s.fx[i].params is Delay
                &&& only_fx(s, next, i)
                &&& next.fx[i].id == s.fx[i].id
                &&& next.fx[i].name == s.fx[i].name
                &&& next.fx[i].input == s.fx[i].input
                &&& next.fx[i].params == (FxParams::Delay { time_ms, feedback })
                &&& next.fx[i].return_level_db == s.fx[i].return_level_db
                &&& delta == (DeltaView::FxParams { fx: id, params: FxParams::Delay { time_ms, feedback } })
            },
            Err(e) => {
                &&& !(from_to(0x3F80_0000, time_ms, 0x44FA_0000) && from_to(0, feedback, 0x3F73_3333) && s.fx[i].params is Delay)
                &&& !from_to(0x3F80_0000, time_ms, 0x44FA_0000) ==> e == (ErrorView::OutOfRange { field: "time_ms"@, value: time_ms })
                &&& from_to(0x3F80_0000, time_ms, 0x44FA_0000) && !from_to(0, feedback, 0x3F73_3333) ==> e == (ErrorView::OutOfRange { field: "feedback"@, value: feedback })
                &&& from_to(0x3F80_0000, time_ms, 0x44FA_0000) && from_to(0, feedback, 0x3F73_3333) ==> e == ErrorView::Unsupported("an FX unit cannot change kind"@)
            },
        },
{
    lemma_fx_is(s, id, i);
}

} // verus!
