//! What a compiled graph holds of its document: every knob rests where the
//! document says, and every node stands where the document has it.

use vstd::prelude::*;

use crate::console::bus::BusKind;
use crate::console::change::change;
use crate::console::change::dests;
use crate::console::command::FaderTarget;
use crate::console::command::MixCommand;
use crate::console::fx::FxParams;
use crate::console::id::BusId;
use crate::console::id::InstrumentId;
use crate::console::instrument::InstrumentView;
use crate::console::meter::MeterKey;
use crate::console::mix::bus_ids;
use crate::console::mix::instrument_ids;
use crate::console::mix::strip_ids;
use crate::console::mix::MixerView;
use crate::console::output::OutputSource;
use crate::console::readback::bus_is;
use crate::console::readback::instrument_is;
use crate::console::readback::lemma_bus_is;
use crate::console::readback::lemma_instrument_is;
use crate::console::readback::lemma_strip_is;
use crate::console::readback::strip_is;
use crate::console::strip::InputView;
use crate::console::strip::RouteTarget;
use crate::console::strip::SendState;
use crate::console::strip::SendTap;
use crate::engine::compiled::aux_ids;
use crate::engine::compiled::direct_out;
use crate::engine::compiled::direct_outs;
use crate::engine::compiled::graph_of;
use crate::engine::compiled::is_aux;
use crate::engine::compiled::meter_keys_of;
use crate::engine::compiled::rack_base;
use crate::engine::compiled::send_slot;
use crate::engine::compiled::strip_code;
use crate::engine::compiled::tables_of;
use crate::engine::compiled::EqTarget;
use crate::engine::compiled::FxKnobs;
use crate::engine::compiled::Level;
use crate::engine::compiled::SendSlot;
use crate::engine::compiled::StripSource;
use crate::engine::compiled::TapPoint;
use crate::engine::controls::moving_a_strip_mute;
use crate::engine::dispatch::param_moved;
use crate::engine::layout::every_control_can_be_reached;
use crate::engine::layout::indexable;
use crate::engine::layout::strip_mapped;
use crate::engine::slots::devices_of;
use crate::engine::slots::SlotView;
use crate::seqs::filter_origins;
use crate::seqs::lemma_absent;
use crate::seqs::lemma_first;
use crate::single::Single;

verus! {

/// A compiled strip multiplies by 0 where the document's strip is muted and by 1
/// where it is not. Its other knobs and switches are those of the document: gain
/// and fader in decibels, the pan as it is, the three bands, the equaliser's switch
/// and the PFL. No knob has moved yet.
pub proof fn a_compiled_strip_is_the_documents(
    s: MixerView,
    block_size: usize,
    inputs: Seq<SlotView>,
    outputs: Seq<SlotView>,
    i: int,
)
    requires
        0 <= i < s.strips.len(),
    ensures
        graph_of(s, block_size, inputs, outputs).strips.len() == s.strips.len(),
        graph_of(s, block_size, inputs, outputs).block_size == block_size,
        ({
            let node = graph_of(s, block_size, inputs, outputs).strips[i];
            let strip = s.strips[i];
            &&& strip.mute <==> node.mute.target == Level::Linear(Single { bits: 0 })
            &&& !strip.mute <==> node.mute.target == Level::Linear(Single { bits: 0x3F80_0000 })
            &&& node.gain.target == Level::Db(strip.gain_db)
            &&& node.fader.target == Level::Db(strip.fader_db)
            &&& node.pan.target == Level::Linear(strip.pan)
            &&& node.eq_enabled == strip.eq.enabled
            &&& node.low.target == EqTarget::Band(strip.eq.low)
            &&& node.mid.target == EqTarget::Band(strip.eq.mid)
            &&& node.high.target == EqTarget::Band(strip.eq.high)
            &&& node.pfl == strip.pfl
            &&& !node.mute.moved && !node.gain.moved && !node.fader.moved && !node.pan.moved
            &&& !node.low.moved && !node.mid.moved && !node.high.moved
        }),
{
}

/// A compiled bus is of the document's kind, and its knobs rest where the document
/// has them: by 0 where it is muted and by 1 where it is not.
pub proof fn a_compiled_bus_is_the_documents(
    s: MixerView,
    block_size: usize,
    inputs: Seq<SlotView>,
    outputs: Seq<SlotView>,
    i: int,
)
    requires
        0 <= i < s.buses.len(),
    ensures
        graph_of(s, block_size, inputs, outputs).buses.len() == s.buses.len(),
        ({
            let node = graph_of(s, block_size, inputs, outputs).buses[i];
            let bus = s.buses[i];
            &&& node.kind == bus.kind
            &&& bus.mute <==> node.mute.target == Level::Linear(Single { bits: 0 })
            &&& !bus.mute <==> node.mute.target == Level::Linear(Single { bits: 0x3F80_0000 })
            &&& node.fader.target == Level::Db(bus.fader_db)
            &&& node.pfl == bus.pfl
            &&& !node.mute.moved && !node.fader.moved
        }),
{
}

/// A compiled effects unit is of the document's kind, with its knobs where the
/// document has them.
pub proof fn a_compiled_unit_is_the_documents(
    s: MixerView,
    block_size: usize,
    inputs: Seq<SlotView>,
    outputs: Seq<SlotView>,
    i: int,
)
    requires
        0 <= i < s.fx.len(),
    ensures
        graph_of(s, block_size, inputs, outputs).fx.len() == s.fx.len(),
        ({
            let node = graph_of(s, block_size, inputs, outputs).fx[i];
            let unit = s.fx[i];
            &&& node.return_level.target == Level::Db(unit.return_level_db)
            &&& !node.return_level.moved
            &&& match (unit.params, node.knobs) {
                (FxParams::Reverb { room_size, damping }, FxKnobs::Reverb { room, damp }) => {
                    &&& room.target == Level::Linear(room_size)
                    &&& damp.target == Level::Linear(damping)
                    &&& !room.moved && !damp.moved
                },
                (FxParams::Delay { time_ms, feedback }, FxKnobs::Delay { time, feedback: back }) => {
                    &&& time.target == Level::Linear(time_ms)
                    &&& back.target == Level::Linear(feedback)
                    &&& !time.moved && !back.moved
                },
                _ => false,
            }
        }),
{
}

/// The master's fader rests where the document has it, and the meters show the
/// strips in desk order and then the master, as far as there is room for 64.
pub proof fn a_compiled_master_is_the_documents(
    s: MixerView,
    block_size: usize,
    inputs: Seq<SlotView>,
    outputs: Seq<SlotView>,
)
    ensures
        ({
            let g = graph_of(s, block_size, inputs, outputs);
            &&& g.master_fader.target == Level::Db(s.master.fader_db)
            &&& !g.master_fader.moved
            &&& s.strips.len() < 64 ==> g.meter_count == s.strips.len() + 1
            &&& s.strips.len() >= 64 ==> g.meter_count == 64
        }),
        meter_keys_of(s).len() == s.strips.len() + 1,
        meter_keys_of(s)[s.strips.len() as int] == MeterKey::Master,
        forall|i: int|
            0 <= i < s.strips.len() ==> #[trigger] meter_keys_of(s)[i] == (MeterKey::Strip {
                id: s.strips[i].id,
            }),
{
}

/// The bus of that name, the last one if there were several.
pub open spec fn last_bus_is(s: MixerView, id: BusId, b: int) -> bool {
    &&& 0 <= b < s.buses.len()
    &&& s.buses[b].id == id
    &&& forall|j: int| b < j < s.buses.len() ==> (#[trigger] s.buses[j]).id != id
}

proof fn lemma_last_bus(s: MixerView, id: BusId, b: int)
    requires
        last_bus_is(s, id, b),
    ensures
        bus_ids(s.buses).index_of_last(id) == Some(b),
{
    let ids = bus_ids(s.buses);
    assert(ids[b] == id);
    assert(ids.contains(id));
    ids.index_of_last_ensures(id);
    let at = ids.index_of_last(id)->0;
    if at < b {
        assert(ids[b] == id);
    }
    if at > b {
        assert(s.buses[at].id == id);
    }
}

proof fn lemma_no_bus(s: MixerView, id: BusId)
    requires
        forall|j: int| 0 <= j < s.buses.len() ==> (#[trigger] s.buses[j]).id != id,
    ensures
        bus_ids(s.buses).index_of_last(id) is None,
{
    let ids = bus_ids(s.buses);
    assert(!ids.contains(id)) by {
        if ids.contains(id) {
            let j = choose|j: int| 0 <= j < ids.len() && ids[j] == id;
            assert(s.buses[j].id == id);
        }
    }
    ids.index_of_last_ensures(id);
}

/// A strip that the document routes to the master is routed there. One that it
/// routes to a bus goes to the place of that bus, and to the master if there is none.
pub proof fn a_compiled_route_is_the_documents(
    s: MixerView,
    block_size: usize,
    inputs: Seq<SlotView>,
    outputs: Seq<SlotView>,
    i: int,
    id: BusId,
    b: int,
)
    requires
        0 <= i < s.strips.len(),
        s.buses.len() <= 0x1_0000,
    ensures
        s.strips[i].route_to == RouteTarget::Master ==> graph_of(
            s,
            block_size,
            inputs,
            outputs,
        ).strips[i].route is None,
        s.strips[i].route_to == (RouteTarget::Bus { id }) && last_bus_is(s, id, b) ==> (graph_of(
            s,
            block_size,
            inputs,
            outputs,
        ).strips[i].route matches Some(at) && at == b),
        s.strips[i].route_to == (RouteTarget::Bus { id }) && (forall|j: int|
            0 <= j < s.buses.len() ==> (#[trigger] s.buses[j]).id != id) ==> graph_of(
            s,
            block_size,
            inputs,
            outputs,
        ).strips[i].route is None,
{
    if last_bus_is(s, id, b) {
        lemma_last_bus(s, id, b);
    }
    if forall|j: int| 0 <= j < s.buses.len() ==> (#[trigger] s.buses[j]).id != id {
        lemma_no_bus(s, id);
    }
}

/// An effects unit hears the place of the bus that the document names.
pub proof fn a_compiled_unit_hears_its_bus(
    s: MixerView,
    block_size: usize,
    inputs: Seq<SlotView>,
    outputs: Seq<SlotView>,
    i: int,
    b: int,
)
    requires
        0 <= i < s.fx.len(),
        s.buses.len() <= 0x1_0000,
    ensures
        last_bus_is(s, s.fx[i].input, b) ==> (graph_of(s, block_size, inputs, outputs).fx[i].input
            matches Some(at) && at == b),
        (forall|j: int| 0 <= j < s.buses.len() ==> (#[trigger] s.buses[j]).id != s.fx[i].input)
            ==> graph_of(s, block_size, inputs, outputs).fx[i].input is None,
{
    if last_bus_is(s, s.fx[i].input, b) {
        lemma_last_bus(s, s.fx[i].input, b);
    }
    if forall|j: int| 0 <= j < s.buses.len() ==> (#[trigger] s.buses[j]).id != s.fx[i].input {
        lemma_no_bus(s, s.fx[i].input);
    }
}

/// A compiled send is at rest toward an aux bus. It stands at the level of the strip's
/// send there and before or behind the fader as that send does, and it is silent and
/// behind the fader where the strip has none.
pub open spec fn send_stands(s: MixerView, given: Seq<SendState>, send: SendSlot) -> bool {
    &&& send.bus < s.buses.len()
    &&& s.buses[send.bus as int].kind == BusKind::Aux
    &&& !send.level.moved
    &&& forall|n: int|
        0 <= n < given.len() && (#[trigger] given[n]).dest == s.buses[send.bus as int].id && (
        forall|m: int| 0 <= m < n ==> (#[trigger] given[m]).dest != s.buses[send.bus as int].id)
            ==> {
            &&& send.level.target == Level::Db(given[n].level_db)
            &&& send.pre == (given[n].tap == SendTap::PreFader)
        }
    &&& (forall|n: int|
        0 <= n < given.len() ==> (#[trigger] given[n]).dest != s.buses[send.bus as int].id) ==> {
        &&& send.level.target == Level::Linear(Single { bits: 0 })
        &&& !send.pre
    }
}

proof fn lemma_send_stands(s: MixerView, given: Seq<SendState>, id: BusId, b: int)
    requires
        last_bus_is(s, id, b),
        s.buses[b].kind == BusKind::Aux,
        s.buses.len() <= 0x1_0000,
    ensures
        send_slot(given, s.buses, id).bus == b,
        send_stands(s, given, send_slot(given, s.buses, id)),
{
    lemma_last_bus(s, id, b);
    let send = send_slot(given, s.buses, id);
    assert(send.bus == b);
    assert forall|n: int|
        0 <= n < given.len() && (#[trigger] given[n]).dest == s.buses[send.bus as int].id && (
        forall|m: int| 0 <= m < n ==> (#[trigger] given[m]).dest != s.buses[send.bus as int].id)
            implies {
        &&& send.level.target == Level::Db(given[n].level_db)
        &&& send.pre == (given[n].tap == SendTap::PreFader)
    } by {
        lemma_first(dests(given), id, n);
    }
    if forall|n: int| 0 <= n < given.len() ==> (#[trigger] given[n]).dest != id {
        lemma_absent(dests(given), id);
    }
}

/// Every compiled strip has one send for every aux bus, in the order of the buses,
/// and none for a group.
pub proof fn compiled_sends_are_the_documents(
    s: MixerView,
    block_size: usize,
    inputs: Seq<SlotView>,
    outputs: Seq<SlotView>,
    i: int,
)
    requires
        0 <= i < s.strips.len(),
        s.buses.len() <= 0x1_0000,
        forall|a: int, b: int|
            0 <= a < b < s.buses.len() ==> (#[trigger] s.buses[a]).id != (#[trigger] s.buses[b]).id,
    ensures
        ({
            let sends = graph_of(s, block_size, inputs, outputs).strips[i].sends;
            &&& forall|k: int|
                0 <= k < sends.len() ==> send_stands(s, s.strips[i].sends, #[trigger] sends[k])
            &&& forall|j: int, k: int|
                0 <= j < k < sends.len() ==> (#[trigger] sends[j]).bus < (#[trigger] sends[k]).bus
            &&& forall|b: int|
                0 <= b < s.buses.len() && (#[trigger] s.buses[b]).kind == BusKind::Aux
                    ==> exists|k: int| 0 <= k < sends.len() && (#[trigger] sends[k]).bus == b
        }),
{
    let sends = graph_of(s, block_size, inputs, outputs).strips[i].sends;
    let from = filter_origins(s.buses, is_aux());
    let aux = aux_ids(s.buses);
    assert(aux.len() == from.len());
    assert(sends.len() == aux.len());
    assert forall|k: int| 0 <= k < sends.len() implies (#[trigger] sends[k]).bus == from[k]
        && send_stands(s, s.strips[i].sends, sends[k]) by {
        assert(0 <= from[k] < s.buses.len());
        assert(aux[k] == s.buses[from[k]].id);
        assert(sends[k] == send_slot(s.strips[i].sends, s.buses, aux[k]));
        lemma_send_stands(s, s.strips[i].sends, aux[k], from[k]);
    }
    assert forall|j: int, k: int| 0 <= j < k < sends.len() implies (#[trigger] sends[j]).bus < (
    #[trigger] sends[k]).bus by {
        assert(from[j] < from[k]);
    }
    assert forall|b: int|
        0 <= b < s.buses.len() && (#[trigger] s.buses[b]).kind == BusKind::Aux implies exists|k: int|
        0 <= k < sends.len() && (#[trigger] sends[k]).bus == b by {
        assert(is_aux()(s.buses[b]));
        assert(from.contains(b));
        let k = choose|k: int| 0 <= k < from.len() && from[k] == b;
        assert(sends[k].bus == b);
    }
}

/// The range of a device, the first with its name.
pub open spec fn range_is(ranges: Seq<SlotView>, device: Option<Seq<char>>, r: int) -> bool {
    &&& 0 <= r < ranges.len()
    &&& ranges[r].device == device
    &&& forall|j: int| 0 <= j < r ==> (#[trigger] ranges[j]).device != device
}

proof fn lemma_range(ranges: Seq<SlotView>, device: Option<Seq<char>>, r: int)
    requires
        range_is(ranges, device, r),
    ensures
        devices_of(ranges).index_of_first(device) == Some(r),
{
    lemma_first(devices_of(ranges), device, r);
}

/// A strip that is patched to nothing is silent. One on a device reads the channel
/// that lies so many channels into the device's range, as long as the range is that
/// wide, and is silent otherwise.
pub proof fn a_compiled_strip_hears_its_device(
    s: MixerView,
    block_size: usize,
    inputs: Seq<SlotView>,
    outputs: Seq<SlotView>,
    i: int,
    device: Option<Seq<char>>,
    channel: u16,
    r: int,
)
    requires
        0 <= i < s.strips.len(),
        forall|j: int|
            0 <= j < inputs.len() ==> (#[trigger] inputs[j]).offset + inputs[j].channels
                <= u16::MAX,
    ensures
        ({
            let source = graph_of(s, block_size, inputs, outputs).strips[i].source;
            &&& s.strips[i].input is None ==> source == StripSource::Silence
            &&& s.strips[i].input == Some(InputView::Device { device, device_channel: channel })
                ==> {
                &&& range_is(inputs, device, r) && channel < inputs[r].channels ==> (source matches
                    StripSource::Input(at) && at == inputs[r].offset + channel)
                &&& range_is(inputs, device, r) && channel >= inputs[r].channels ==> source
                    == StripSource::Silence
                &&& (forall|j: int|
                    0 <= j < inputs.len() ==> (#[trigger] inputs[j]).device != device) ==> source
                    == StripSource::Silence
            }
        }),
{
    if range_is(inputs, device, r) {
        lemma_range(inputs, device, r);
    }
    if forall|j: int| 0 <= j < inputs.len() ==> (#[trigger] inputs[j]).device != device {
        lemma_absent(devices_of(inputs), device);
    }
}

/// The channels of the instruments lie one behind the other: two for one without
/// splits, otherwise one per split.
pub proof fn instruments_lie_one_behind_the_other(instruments: Seq<InstrumentView>, k: int)
    requires
        0 <= k < instruments.len(),
    ensures
        rack_base(instruments, 0) == 0,
        instruments[k].splits.len() == 0 ==> rack_base(instruments, k + 1) == rack_base(
            instruments,
            k,
        ) + 2,
        instruments[k].splits.len() > 0 ==> rack_base(instruments, k + 1) == rack_base(
            instruments,
            k,
        ) + instruments[k].splits.len(),
{
}

/// A strip on an instrument reads the channel that lies so many channels into the
/// instrument's part of the rack. Past the instrument's width, past the 64 channels
/// of the rack, and where there is no such instrument, it is silent.
pub proof fn a_compiled_strip_hears_its_instrument(
    s: MixerView,
    block_size: usize,
    inputs: Seq<SlotView>,
    outputs: Seq<SlotView>,
    i: int,
    instrument: InstrumentId,
    channel: u16,
    k: int,
)
    requires
        0 <= i < s.strips.len(),
        s.strips[i].input == Some(InputView::Instrument { instrument, channel }),
    ensures
        ({
            let source = graph_of(s, block_size, inputs, outputs).strips[i].source;
            &&& instrument_is(s, instrument, k) ==> {
                let splits = s.instruments[k].splits.len();
                let inside = if splits == 0 {
                    channel < 2
                } else {
                    channel < splits
                };
                let at = rack_base(s.instruments, k) + channel;
                &&& inside && at < 64 ==> (source matches StripSource::Instrument(place) && place
                    == at)
                &&& !inside || at >= 64 ==> source == StripSource::Silence
            }
            &&& (forall|j: int|
                0 <= j < s.instruments.len() ==> (#[trigger] s.instruments[j]).id != instrument)
                ==> source == StripSource::Silence
        }),
{
    if instrument_is(s, instrument, k) {
        lemma_instrument_is(s, instrument, k);
    }
    if forall|j: int|
        0 <= j < s.instruments.len() ==> (#[trigger] s.instruments[j]).id != instrument {
        lemma_absent(instrument_ids(s.instruments), instrument);
    }
}

/// A patch whose device has the channel and whose source is on the desk and wide
/// enough becomes a direct out: on that channel of the plane, off that node, with
/// the patch's side and tap.
pub proof fn a_patch_becomes_its_out(
    s: MixerView,
    outputs: Seq<SlotView>,
    j: int,
    r: int,
    node: int,
)
    requires
        0 <= j < s.outputs.len() <= usize::MAX,
        s.strips.len() <= 0x1_0000,
        s.buses.len() <= 0x1_0000,
        range_is(outputs, s.outputs[j].device, r),
        outputs[r].offset + outputs[r].channels <= u16::MAX,
    ensures
        ({
            let patch = s.outputs[j];
            let out = direct_out(s, outputs, j);
            &&& patch.channel >= outputs[r].channels ==> out is None
            &&& patch.channel < outputs[r].channels ==> {
                &&& out matches Some(o) ==> {
                    &&& o.patch == j
                    &&& o.channel == outputs[r].offset + patch.channel
                    &&& o.side == patch.source_channel
                    &&& o.pre == (patch.tap == SendTap::PreFader)
                }
                &&& patch.source == OutputSource::Master ==> {
                    &&& out is Some <==> patch.source_channel < 2
                    &&& out matches Some(o) ==> o.source == TapPoint::Master
                }
                &&& patch.source matches OutputSource::Strip { id } ==> strip_is(s, id, node) ==> {
                    &&& out is Some <==> patch.source_channel == 0
                    &&& out matches Some(o) ==> o.source == TapPoint::Strip(node as u16)
                }
                &&& patch.source matches OutputSource::Bus { id } ==> bus_is(s, id, node) ==> {
                    &&& out is Some <==> if s.buses[node].kind == BusKind::Group {
                        patch.source_channel < 2
                    } else {
                        patch.source_channel == 0
                    }
                    &&& out matches Some(o) ==> o.source == TapPoint::Bus(node as u16)
                }
            }
        }),
{
    lemma_range(outputs, s.outputs[j].device, r);
    match s.outputs[j].source {
        OutputSource::Strip { id } => {
            if strip_is(s, id, node) {
                lemma_strip_is(s, id, node);
            }
        },
        OutputSource::Bus { id } => {
            if bus_is(s, id, node) {
                lemma_bus_is(s, id, node);
            }
        },
        OutputSource::Master => {},
    }
}

/// The direct outs of a graph are those of the patches, each once, in the order of
/// the patches.
pub proof fn the_outs_follow_the_patches(s: MixerView, outputs: Seq<SlotView>, n: int)
    requires
        0 <= n <= s.outputs.len() <= usize::MAX,
    ensures
        ({
            let outs = direct_outs(s, outputs, n);
            &&& forall|k: int|
                0 <= k < outs.len() ==> (#[trigger] outs[k]).patch < n && direct_out(
                    s,
                    outputs,
                    outs[k].patch as int,
                ) == Some(outs[k])
            &&& forall|j: int, k: int|
                0 <= j < k < outs.len() ==> (#[trigger] outs[j]).patch < (#[trigger] outs[k]).patch
            &&& forall|j: int|
                0 <= j < n && #[trigger] direct_out(s, outputs, j) is Some ==> outs.contains(
                    direct_out(s, outputs, j)->0,
                )
        }),
    decreases n,
{
    if n > 0 {
        the_outs_follow_the_patches(s, outputs, n - 1);
        let rest = direct_outs(s, outputs, n - 1);
        let outs = direct_outs(s, outputs, n);
        assert forall|j: int|
            0 <= j < n && #[trigger] direct_out(s, outputs, j) is Some implies outs.contains(
            direct_out(s, outputs, j)->0,
        ) by {
            let out = direct_out(s, outputs, j)->0;
            if j < n - 1 {
                assert(rest.contains(out));
                let k = choose|k: int| 0 <= k < rest.len() && rest[k] == out;
                assert(outs[k] == out);
            } else {
                assert(outs[outs.len() - 1] == out);
            }
        }
    }
}

/// Muting in the document and compiling, and compiling and moving the mute control
/// to 0, come to the same: so do unmuting and moving it to 1.
pub proof fn a_mute_may_be_compiled_or_moved(
    s: MixerView,
    block_size: usize,
    inputs: Seq<SlotView>,
    outputs: Seq<SlotView>,
    i: int,
    mute: bool,
)
    requires
        0 <= i < s.strips.len() <= 0x1_0000,
        forall|a: int, b: int|
            0 <= a < b < s.strips.len() ==> (#[trigger] s.strips[a]).id != (
            #[trigger] s.strips[b]).id,
        forall|a: int, b: int|
            0 <= a < b < s.buses.len() ==> (#[trigger] s.buses[a]).id != (#[trigger] s.buses[b]).id,
        forall|a: int, b: int|
            0 <= a < b < s.fx.len() ==> (#[trigger] s.fx[a]).id != (#[trigger] s.fx[b]).id,
        s.outputs.len() <= usize::MAX,
        indexable(tables_of(s, outputs)),
    ensures
        ({
            let id = s.strips[i].id;
            let muted = change(s, MixCommand::SetMute { target: FaderTarget::Strip { id }, mute });
            let control = tables_of(s, outputs).map.mute[strip_code(id)];
            let moved = param_moved(
                graph_of(s, block_size, inputs, outputs),
                control,
                Single {
                    bits: if mute {
                        0
                    } else {
                        0x3F80_0000
                    },
                },
            );
            &&& tables_of(s, outputs).map.mute.contains_key(id.0 as u64)
            &&& muted matches Ok((next, _)) && graph_of(
                next,
                block_size,
                inputs,
                outputs,
            ).strips[i].mute.target == moved.strips[i].mute.target
        }),
{
    let id = s.strips[i].id;
    lemma_strip_is(s, id, i);
    every_control_can_be_reached(s, outputs);
    let t = tables_of(s, outputs);
    let g = graph_of(s, block_size, inputs, outputs);
    let control = t.map.mute[strip_code(id)];
    assert(strip_mapped(t, i, s.strips[i].id));
    moving_a_strip_mute(
        g,
        control,
        i as u16,
        Single {
            bits: if mute {
                0
            } else {
                0x3F80_0000
            },
        },
    );
}

/// A patch onto a device that is not there, or off a node that is not on the desk,
/// becomes no out.
pub proof fn a_patch_without_its_ends_becomes_no_out(s: MixerView, outputs: Seq<SlotView>, j: int)
    requires
        0 <= j < s.outputs.len(),
    ensures
        (forall|r: int| 0 <= r < outputs.len() ==> (#[trigger] outputs[r]).device
            != s.outputs[j].device) ==> direct_out(s, outputs, j) is None,
        s.outputs[j].source matches OutputSource::Strip { id } ==> (forall|k: int|
            0 <= k < s.strips.len() ==> (#[trigger] s.strips[k]).id != id) ==> direct_out(
            s,
            outputs,
            j,
        ) is None,
        s.outputs[j].source matches OutputSource::Bus { id } ==> (forall|k: int|
            0 <= k < s.buses.len() ==> (#[trigger] s.buses[k]).id != id) ==> direct_out(
            s,
            outputs,
            j,
        ) is None,
{
    if forall|r: int|
        0 <= r < outputs.len() ==> (#[trigger] outputs[r]).device != s.outputs[j].device {
        lemma_absent(devices_of(outputs), s.outputs[j].device);
    }
    match s.outputs[j].source {
        OutputSource::Strip { id } => {
            if forall|k: int| 0 <= k < s.strips.len() ==> (#[trigger] s.strips[k]).id != id {
                lemma_absent(strip_ids(s.strips), id);
            }
        },
        OutputSource::Bus { id } => {
            if forall|k: int| 0 <= k < s.buses.len() ==> (#[trigger] s.buses[k]).id != id {
                lemma_absent(bus_ids(s.buses), id);
            }
        },
        OutputSource::Master => {},
    }
}

} // verus!
