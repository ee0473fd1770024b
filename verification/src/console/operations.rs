//! What the console's operations are for.

use vstd::prelude::*;

use crate::console::bus::BusKind;
use crate::console::bus::BusState;
use crate::console::change::change;
use crate::console::command::FaderTarget;
use crate::console::command::MixCommand;
use crate::console::command::MixError;
use crate::console::desk::comes_fresh;
use crate::console::eq::EqBandKind;
use crate::console::fx::FxParams;
use crate::console::graph::derive_graph;
use crate::console::graph::graph_edges;
use crate::console::graph::graph_nodes;
use crate::console::graph::precedes;
use crate::console::graph::topo_order;
use crate::console::graph::CycleError;
use crate::console::graph::NodeId;
use crate::console::graph::SignalGraph;
use crate::console::id::BusId;
use crate::console::id::FxId;
use crate::console::id::InstrumentId;
use crate::console::id::StripId;
use crate::console::id::TakeId;
use crate::console::instrument::gm_drum_map;
use crate::console::instrument::gm_drum_splits;
use crate::console::instrument::InstrumentSplit;
use crate::console::instrument::InstrumentState;
use crate::console::mix::raise;
use crate::console::mix::MixerState;
use crate::console::output::OutputJack;
use crate::console::output::OutputPatch;
use crate::console::output::OutputSource;
use crate::console::parse::ParseEnumError;
use crate::console::readback::a_gain_reads_back;
use crate::console::readback::a_strip_fader_reads_back;
use crate::console::readback::a_strip_mute_reads_back;
use crate::console::readback::bus_is;
use crate::console::readback::instrument_is;
use crate::console::readback::lemma_bus_is;
use crate::console::readback::lemma_instrument_is;
use crate::console::readback::lemma_strip_is;
use crate::console::readback::only_strip;
use crate::console::readback::strip_is;
use crate::console::readback::the_high_band_reads_back;
use crate::console::readback::the_low_band_reads_back;
use crate::console::readback::the_mid_band_reads_back;
use crate::console::reduce::applied_outcome;
use crate::console::reduce::apply;
use crate::console::reduce::Applied;
use crate::console::strip::InputAssign;
use crate::console::strip::InputView;
use crate::console::strip::InputWire;
use crate::console::strip::InputWireError;
use crate::console::strip::SendTap;
use crate::console::strip::StripState;
use crate::seqs::views;
use crate::single::Single;
use crate::text::numeral;
use crate::text::text_of;
use crate::text::texts_of;

verus! {

/// A band that is set reads back from the document that comes of it: the one of the
/// kind that was named, on the one strip, while the other bands and everything else
/// stay.
pub proof fn setting_a_band(
    state: &MixerState,
    id: StripId,
    band: EqBandKind,
    freq_hz: Single,
    gain_db: Single,
    q: Single,
    applied: Result<Applied, MixError>,
    i: int,
)
    requires
        call_ensures(
            apply,
            (state, MixCommand::SetEqBand { strip: id, band, freq_hz, gain_db, q }),
            applied,
        ),
        strip_is(state@, id, i),
        applied is Ok,
    ensures
        ({
            let next = applied->Ok_0.0@;
            let before = state@.strips[i].eq;
            let after = next.strips[i].eq;
            &&& only_strip(state@, next, i)
            &&& after.enabled == before.enabled
            &&& band == EqBandKind::LowShelf ==> after.low.freq_hz == freq_hz && after.low.gain_db
                == gain_db && after.low.q == q && after.mid == before.mid && after.high
                == before.high
            &&& band == EqBandKind::Peak ==> after.mid.freq_hz == freq_hz && after.mid.gain_db
                == gain_db && after.mid.q == q && after.low == before.low && after.high
                == before.high
            &&& band == EqBandKind::HighShelf ==> after.high.freq_hz == freq_hz
                && after.high.gain_db == gain_db && after.high.q == q && after.low == before.low
                && after.mid == before.mid
        }),
{
    let command = MixCommand::SetEqBand { strip: id, band, freq_hz, gain_db, q };
    assert(applied_outcome(applied) == change(state@, command));
    match band {
        EqBandKind::LowShelf => {
            the_low_band_reads_back(state@, i, id, freq_hz, gain_db, q);
        },
        EqBandKind::Peak => {
            the_mid_band_reads_back(state@, i, id, freq_hz, gain_db, q);
        },
        EqBandKind::HighShelf => {
            the_high_band_reads_back(state@, i, id, freq_hz, gain_db, q);
        },
    }
}

/// A mute, a fader and a gain that are set read back from the document that comes of
/// it.
pub proof fn setting_a_strip(
    state: &MixerState,
    id: StripId,
    mute: bool,
    level_db: Single,
    muted: Result<Applied, MixError>,
    faded: Result<Applied, MixError>,
    gained: Result<Applied, MixError>,
    i: int,
)
    requires
        call_ensures(
            apply,
            (state, MixCommand::SetMute { target: FaderTarget::Strip { id }, mute }),
            muted,
        ),
        call_ensures(
            apply,
            (state, MixCommand::SetFader { target: FaderTarget::Strip { id }, level_db }),
            faded,
        ),
        call_ensures(apply, (state, MixCommand::SetGain { strip: id, gain_db: level_db }), gained),
        strip_is(state@, id, i),
    ensures
        muted matches Ok(a) && a.0@.strips[i].mute == mute && only_strip(state@, a.0@, i),
        faded matches Ok(a) ==> a.0@.strips[i].fader_db == level_db && only_strip(state@, a.0@, i)
            && a.0@.strips[i].mute == state@.strips[i].mute,
        gained matches Ok(a) ==> a.0@.strips[i].gain_db == level_db && only_strip(state@, a.0@, i)
            && a.0@.strips[i].fader_db == state@.strips[i].fader_db,
{
    a_strip_mute_reads_back(state@, i, id, mute);
    a_strip_fader_reads_back(state@, i, id, level_db);
    a_gain_reads_back(state@, i, id, level_db);
    assert(applied_outcome(muted) is Ok);
}

/// What is looked up by its number is the first of that number.
pub proof fn looking_up_by_number(
    state: &MixerState,
    strip: StripId,
    bus: BusId,
    instrument: InstrumentId,
    found_strip: Option<&StripState>,
    found_bus: Option<&BusState>,
    found_instrument: Option<&InstrumentState>,
    i: int,
)
    requires
        call_ensures(MixerState::strip, (state, strip), found_strip),
        call_ensures(MixerState::bus, (state, bus), found_bus),
        call_ensures(MixerState::instrument, (state, instrument), found_instrument),
    ensures
        strip_is(state@, strip, i) ==> found_strip is Some && found_strip->0@ == state@.strips[i],
        bus_is(state@, bus, i) ==> found_bus is Some && found_bus->0@ == state@.buses[i],
        instrument_is(state@, instrument, i) ==> found_instrument is Some && found_instrument->0@
            == state@.instruments[i],
{
    if strip_is(state@, strip, i) {
        lemma_strip_is(state@, strip, i);
    }
    if bus_is(state@, bus, i) {
        lemma_bus_is(state@, bus, i);
    }
    if instrument_is(state@, instrument, i) {
        lemma_instrument_is(state@, instrument, i);
    }
}

/// A strip and an aux bus offer one channel, a group and the master two.
pub proof fn how_wide_a_source_is(
    state: &MixerState,
    source: &OutputSource,
    width: Option<u16>,
    i: int,
)
    requires
        call_ensures(MixerState::source_channels, (state, source), width),
    ensures
        *source == OutputSource::Master ==> width == Some(2u16),
        *source matches OutputSource::Strip { id } ==> (strip_is(state@, id, i) ==> width == Some(
            1u16,
        )),
        *source matches OutputSource::Bus { id } ==> (bus_is(state@, id, i) ==> width == Some(
            if state@.buses[i].kind == BusKind::Group {
                2u16
            } else {
                1u16
            },
        )),
{
    match *source {
        OutputSource::Strip { id } => {
            if strip_is(state@, id, i) {
                lemma_strip_is(state@, id, i);
            }
        },
        OutputSource::Bus { id } => {
            if bus_is(state@, id, i) {
                lemma_bus_is(state@, id, i);
            }
        },
        OutputSource::Master => {},
    }
}

/// A new strip comes fresh, under its number and name, and so do a bus and an
/// instrument.
pub proof fn what_comes_fresh(
    strip_id: StripId,
    bus_id: BusId,
    id: InstrumentId,
    kind: BusKind,
    name: String,
    strip: StripState,
    bus: BusState,
    instrument: InstrumentState,
)
    requires
        call_ensures(StripState::new, (strip_id, name), strip),
        call_ensures(BusState::new, (bus_id, kind, name), bus),
        call_ensures(InstrumentState::new, (id, name), instrument),
    ensures
        strip@.id == strip_id && strip@.name == name@ && strip@.input is None && comes_fresh(
            strip@,
        ),
        bus@.id == bus_id && bus@.kind == kind && bus@.name == name@ && bus@.fader_db.bits == 0
            && !bus@.mute && !bus@.pfl,
        instrument@.id == id && instrument@.name == name@ && instrument@.polyphony == 32
            && instrument@.port is None && instrument@.splits.len() == 0
            && instrument@.soundfont is None && !instrument@.effects,
{
}

/// An instrument listens to the port it is bound to, on its channel if it has one.
pub proof fn what_an_instrument_listens_to(
    instrument: &InstrumentState,
    port: &str,
    channel: u8,
    accepts: bool,
)
    requires
        call_ensures(InstrumentState::accepts, (instrument, port, channel), accepts),
    ensures
        instrument@.port is None ==> !accepts,
        accepts ==> instrument@.port == Some(port@),
        accepts && instrument@.midi_channel is Some ==> instrument@.midi_channel == Some(channel),
        instrument@.port == Some(port@) && (instrument@.midi_channel is None
            || instrument@.midi_channel == Some(channel)) ==> accepts,
{
}

/// An instrument has one channel and one voice for every split, and two channels of
/// one voice where it has none.
pub proof fn how_wide_an_instrument_is(
    instrument: &InstrumentState,
    channels: usize,
    slots: usize,
)
    requires
        call_ensures(InstrumentState::channels, (instrument,), channels),
        call_ensures(InstrumentState::channels_slots, (instrument,), slots),
    ensures
        instrument@.splits.len() == 0 ==> channels == 2 && slots == 1,
        instrument@.splits.len() > 0 ==> channels == instrument@.splits.len() && slots
            == instrument@.splits.len(),
{
}

/// A split covers the keys in its ranges, both ends included.
pub proof fn what_a_split_covers(split: &InstrumentSplit, key: u8, covers: bool, r: int)
    requires
        call_ensures(InstrumentSplit::covers, (split, key), covers),
    ensures
        0 <= r < split@.ranges.len() && split@.ranges[r].0 <= key && key <= split@.ranges[r].1
            ==> covers,
        (forall|k: int|
            0 <= k < split@.ranges.len() ==> key < (#[trigger] split@.ranges[k]).0
                || split@.ranges[k].1 < key) ==> !covers,
{
}

/// An input patch goes over the wire and back.
pub proof fn an_input_goes_over_the_wire(
    assign: &InputAssign,
    wire: InputWire,
    back: Result<InputAssign, InputWireError>,
)
    requires
        call_ensures(InputAssign::to_wire, (assign,), wire),
        call_ensures(InputAssign::from_wire, (wire,), back),
    ensures
        back matches Ok(again) && again@ == assign@,
{
}

/// What an input patch names: its instrument if it is on one, its channel either way.
pub proof fn what_an_input_names(
    assign: &InputAssign,
    id: Option<InstrumentId>,
    channel: u16,
    other: &InputAssign,
    same: bool,
)
    requires
        call_ensures(InputAssign::instrument_id, (assign,), id),
        call_ensures(InputAssign::channel, (assign,), channel),
        call_ensures(InputAssign::same_as, (assign, other), same),
    ensures
        assign@ matches InputView::Device { device_channel, .. } ==> id is None && channel
            == device_channel,
        assign@ matches InputView::Instrument { instrument, channel: own } ==> id == Some(
            instrument,
        ) && channel == own,
        same <==> assign@ == other@,
{
}

/// A new patch taps before the fader, and owns its jack.
pub proof fn a_new_patch_owns_its_jack(
    source: OutputSource,
    source_channel: u16,
    jack: OutputJack,
    patch: OutputPatch,
    owned: OutputJack,
    owns: bool,
)
    requires
        call_ensures(OutputPatch::new, (source, source_channel, jack), patch),
        call_ensures(OutputPatch::jack, (&patch,), owned),
        call_ensures(OutputPatch::is, (&patch, &jack), owns),
    ensures
        patch@.source == source,
        patch@.source_channel == source_channel,
        patch@.tap == SendTap::PreFader,
        patch@.device == text_of(jack.device),
        patch@.channel == jack.channel,
        owned@ == jack@,
        owns,
{
}

/// The graph of a document is that of its nodes and edges, and what is ordered lies
/// with every source before what it feeds.
pub proof fn a_document_is_ordered(
    state: &MixerState,
    graph: SignalGraph,
    order: Vec<NodeId>,
    k: int,
)
    requires
        call_ensures(derive_graph, (state,), graph),
        call_ensures(topo_order, (&graph,), Ok::<Vec<NodeId>, CycleError>(order)),
        0 <= k < graph_edges(state@).len(),
    ensures
        graph.nodes@ == graph_nodes(state@),
        order@.len() == graph_nodes(state@).len(),
        exists|i: int, j: int|
            0 <= i < j < order@.len() && #[trigger] order@[i] == graph_edges(state@)[k].from
                && #[trigger] order@[j] == graph_edges(state@)[k].to,
{
    assert(graph.edges@ == graph_edges(state@));
    let edge = graph.edges@[k];
    assert(precedes(order@, edge.from, edge.to));
}

/// An input patch names a device channel or a channel of an instrument: not both, not
/// neither, and no channel of one kind with the other.
pub proof fn what_an_input_may_say(wire: InputWire, read: Result<InputAssign, InputWireError>)
    requires
        call_ensures(InputAssign::from_wire, (wire,), read),
    ensures
        wire.instrument is Some && (wire.device is Some || wire.device_channel is Some) ==> read
            == Err::<InputAssign, InputWireError>(InputWireError::Both),
        wire.instrument is Some && wire.device is None && wire.device_channel is None
            && wire.channel is None ==> read == Err::<InputAssign, InputWireError>(
            InputWireError::InstrumentWithoutChannel,
        ),
        wire.instrument is None && wire.channel is Some ==> read == Err::<
            InputAssign,
            InputWireError,
        >(InputWireError::ChannelWithoutInstrument),
        wire.instrument is None && wire.channel is None && wire.device_channel is None ==> read
            == Err::<InputAssign, InputWireError>(InputWireError::Neither),
        wire.instrument is Some && wire.device is None && wire.device_channel is None
            && wire.channel is Some ==> (read matches Ok(assign) && assign@
            == (InputView::Instrument {
            instrument: wire.instrument->0,
            channel: wire.channel->0,
        })),
        wire.instrument is None && wire.channel is None && wire.device_channel is Some ==> (
        read matches Ok(assign) && assign@ == (InputView::Device {
            device: text_of(wire.device),
            device_channel: wire.device_channel->0,
        })),
{
}

/// The keys of the General MIDI drum map are parted: kick, snare, toms, hi-hat, cymbals
/// and percussion. Every key from 35 to 81 is on one of them, and no key is on two.
pub proof fn the_drum_map_parts_the_keys(splits: Vec<InstrumentSplit>, key: u8)
    requires
        call_ensures(gm_drum_splits, (), splits),
    ensures
        splits@.len() == 6,
        splits@[0]@.covers_key(key) <==> key == 35 || key == 36,
        splits@[1]@.covers_key(key) <==> 37 <= key <= 40,
        splits@[2]@.covers_key(key) <==> key == 41 || key == 43 || key == 45 || key == 47 || key
            == 48 || key == 50,
        splits@[3]@.covers_key(key) <==> key == 42 || key == 44 || key == 46,
        splits@[4]@.covers_key(key) <==> key == 49 || 51 <= key <= 59,
        splits@[5]@.covers_key(key) <==> 60 <= key <= 81,
{
    let map = gm_drum_map();
    assert(views(splits@) == map);
    assert forall|i: int| 0 <= i < 6 implies splits@[i]@ == #[trigger] map[i] by {
        assert(views(splits@)[i] == splits@[i]@);
    }
    assert(map[0].ranges[0] == (35u8, 36u8));
    assert(map[1].ranges[0] == (37u8, 40u8));
    assert(map[2].ranges[0] == (41u8, 41u8));
    assert(map[2].ranges[1] == (43u8, 43u8));
    assert(map[2].ranges[2] == (45u8, 45u8));
    assert(map[2].ranges[3] == (47u8, 48u8));
    assert(map[2].ranges[4] == (50u8, 50u8));
    assert(map[3].ranges[0] == (42u8, 42u8));
    assert(map[3].ranges[1] == (44u8, 44u8));
    assert(map[3].ranges[2] == (46u8, 46u8));
    assert(map[4].ranges[0] == (49u8, 49u8));
    assert(map[4].ranges[1] == (51u8, 59u8));
    assert(map[5].ranges[0] == (60u8, 81u8));
    assert(splits@[0]@ == map[0] && splits@[1]@ == map[1] && splits@[2]@ == map[2] && splits@[3]@
        == map[3] && splits@[4]@ == map[4] && splits@[5]@ == map[5]);
}

/// A channel of an instrument is called after it: with its side, or with the name of
/// its split.
pub proof fn what_a_channel_is_called(instrument: &InstrumentState, names: Vec<String>, c: int)
    requires
        call_ensures(InstrumentState::channel_names, (instrument,), names),
        0 <= c < names@.len(),
    ensures
        instrument@.splits.len() == 0 ==> names@.len() == 2,
        instrument@.splits.len() == 0 && c == 0 ==> names@[c]@ == instrument@.name + " L"@,
        instrument@.splits.len() == 0 && c == 1 ==> names@[c]@ == instrument@.name + " R"@,
        instrument@.splits.len() > 0 ==> names@.len() == instrument@.splits.len() && names@[c]@
            == instrument@.name + " "@ + instrument@.splits[c].name,
{
    assert(texts_of(names@).len() == names@.len());
    assert(texts_of(names@)[c] == names@[c]@);
    assert(instrument@.names()[c] == names@[c]@);
}

/// A mark that is raised is past what was spent, and never falls.
pub proof fn a_raised_mark_is_past_what_was_spent(mark: u64, spent: u32, to: u64)
    requires
        call_ensures(raise, (mark, spent), to),
    ensures
        to > spent,
        to >= mark,
        to == mark || to == spent + 1,
{
}

/// The effects as they come: a reverb of one half each, and a delay of 350 ms with a
/// feedback of 0.35.
pub proof fn the_effects_as_they_come(reverb: FxParams, delay: FxParams)
    requires
        call_ensures(FxParams::default_reverb, (), reverb),
        call_ensures(FxParams::default_delay, (), delay),
    ensures
        reverb matches FxParams::Reverb { room_size, damping } && room_size.bits == 0x3F00_0000
            && damping.bits == 0x3F00_0000,
        delay matches FxParams::Delay { time_ms, feedback } && time_ms.bits == 0x43AF_0000
            && feedback.bits == 0x3EB3_3333,
{
}

/// What a kind is called on the wire.
pub proof fn what_things_are_called(
    bus: BusKind,
    bus_name: &'static str,
    band: EqBandKind,
    band_name: &'static str,
    tap: SendTap,
    tap_name: &'static str,
    unit: FxParams,
    unit_name: &'static str,
)
    requires
        call_ensures(BusKind::as_str, (bus,), bus_name),
        call_ensures(EqBandKind::as_str, (band,), band_name),
        call_ensures(SendTap::as_str, (tap,), tap_name),
        call_ensures(FxParams::kind_str, (unit,), unit_name),
    ensures
        bus_name@ == match bus {
            BusKind::Group => "group"@,
            BusKind::Aux => "aux"@,
        },
        band_name@ == match band {
            EqBandKind::LowShelf => "low_shelf"@,
            EqBandKind::Peak => "peak"@,
            EqBandKind::HighShelf => "high_shelf"@,
        },
        tap_name@ == match tap {
            SendTap::PreFader => "pre_fader"@,
            SendTap::PostFader => "post_fader"@,
        },
        unit_name@ == match unit {
            FxParams::Reverb { .. } => "reverb"@,
            FxParams::Delay { .. } => "delay"@,
        },
{
}

/// A name that was written is read as what it was written for, and no other is read.
pub proof fn a_name_is_read_as_it_was_written(
    bus: BusKind,
    bus_name: &'static str,
    read_bus: Result<BusKind, ParseEnumError>,
    band: EqBandKind,
    band_name: &'static str,
    read_band: Result<EqBandKind, ParseEnumError>,
    tap: SendTap,
    tap_name: &'static str,
    read_tap: Result<SendTap, ParseEnumError>,
)
    requires
        call_ensures(BusKind::as_str, (bus,), bus_name),
        call_ensures(BusKind::from_name, (bus_name,), read_bus),
        call_ensures(EqBandKind::as_str, (band,), band_name),
        call_ensures(EqBandKind::from_name, (band_name,), read_band),
        call_ensures(SendTap::as_str, (tap,), tap_name),
        call_ensures(SendTap::from_name, (tap_name,), read_tap),
    ensures
        read_bus matches Ok(kind) && kind == bus,
        read_band matches Ok(kind) && kind == band,
        read_tap matches Ok(kind) && kind == tap,
{
    assert(bus.name() == bus_name@);
    assert(band.name() == band_name@);
    assert(tap.name() == tap_name@);
    if let Ok(kind) = read_bus {
        BusKind::names_are_distinct(kind, bus);
    }
    if let Ok(kind) = read_band {
        EqBandKind::names_are_distinct(kind, band);
    }
    if let Ok(kind) = read_tap {
        SendTap::names_are_distinct(kind, tap);
    }
}

/// What is no name is refused as it stands.
pub proof fn what_is_no_name(
    text: &str,
    bus: Result<BusKind, ParseEnumError>,
    band: Result<EqBandKind, ParseEnumError>,
    tap: Result<SendTap, ParseEnumError>,
)
    requires
        call_ensures(BusKind::from_name, (text,), bus),
        call_ensures(EqBandKind::from_name, (text,), band),
        call_ensures(SendTap::from_name, (text,), tap),
    ensures
        bus is Ok <==> text@ == "group"@ || text@ == "aux"@,
        bus matches Err(e) ==> e.kind@ == "bus kind"@ && e.value@ == text@,
        band is Ok <==> text@ == "low_shelf"@ || text@ == "peak"@ || text@ == "high_shelf"@,
        band matches Err(e) ==> e.kind@ == "eq band"@ && e.value@ == text@,
        tap is Ok <==> text@ == "pre_fader"@ || text@ == "post_fader"@,
        tap matches Err(e) ==> e.kind@ == "send tap"@ && e.value@ == text@,
{
    assert(BusKind::Group.name() == "group"@ && BusKind::Aux.name() == "aux"@);
    assert(EqBandKind::LowShelf.name() == "low_shelf"@ && EqBandKind::Peak.name() == "peak"@
        && EqBandKind::HighShelf.name() == "high_shelf"@);
    assert(SendTap::PreFader.name() == "pre_fader"@ && SendTap::PostFader.name()
        == "post_fader"@);
}

/// A node is told to a reader by what it is and by its number.
pub proof fn how_a_node_is_told(
    strip: &StripId,
    strip_text: String,
    bus: &BusId,
    bus_text: String,
    unit: &FxId,
    unit_text: String,
    instrument: &InstrumentId,
    instrument_text: String,
    take: &TakeId,
    take_text: String,
)
    requires
        call_ensures(StripId::to_string, (strip,), strip_text),
        call_ensures(BusId::to_string, (bus,), bus_text),
        call_ensures(FxId::to_string, (unit,), unit_text),
        call_ensures(InstrumentId::to_string, (instrument,), instrument_text),
        call_ensures(TakeId::to_string, (take,), take_text),
    ensures
        strip_text@ == "strip#"@ + numeral(strip.0 as nat),
        bus_text@ == "bus#"@ + numeral(bus.0 as nat),
        unit_text@ == "fx#"@ + numeral(unit.0 as nat),
        instrument_text@ == "instrument#"@ + numeral(instrument.0 as nat),
        take_text@ == "take#"@ + numeral(take.0 as nat),
{
}

} // verus!
