//! What holds of the console whatever is done to it.

use vstd::prelude::*;

use crate::console::bus::BusKind;
use crate::console::bus::BusView;
use crate::console::change::bus_removed;
use crate::console::change::change;
use crate::console::change::channel_patch;
use crate::console::change::channel_strip;
use crate::console::change::desk_with;
use crate::console::change::fx_fault;
use crate::console::change::need;
use crate::console::change::on_the_desk;
use crate::console::change::numbers_fit;
use crate::console::change::desk_numbers_fit;
use crate::console::change::other_bus;
use crate::console::change::other_dest;
use crate::console::change::other_instrument;
use crate::console::change::other_jack;
use crate::console::change::other_source;
use crate::console::change::other_strip;
use crate::console::change::plays;
use crate::console::change::tape_name;
use crate::console::change::with_send;
use crate::console::change::without_bus;
use crate::console::change::dests;
use crate::console::change::PAN_LEFT;
use crate::console::change::PAN_RIGHT;
use crate::console::command::DeltaView;
use crate::console::command::ErrorView;
use crate::console::command::MixCommand;
use crate::console::command::ReconcileNeed;
use crate::console::command::MAX_INSTRUMENTS;
use crate::console::command::MAX_STRIPS;
use crate::console::db::FADER_MAX_DB;
use crate::console::db::FADER_MIN_DB;
use crate::console::db::GAIN_MAX_DB;
use crate::console::db::GAIN_MIN_DB;
use crate::console::eq::EqBand;
use crate::console::eq::EQ_FREQ_MAX_HZ;
use crate::console::eq::EQ_FREQ_MIN_HZ;
use crate::console::eq::EQ_GAIN_CUT_DB;
use crate::console::eq::EQ_GAIN_RANGE_DB;
use crate::console::eq::EQ_Q_MAX;
use crate::console::eq::EQ_Q_MIN;
use crate::console::fx::FxView;
use crate::console::id::BusId;
use crate::console::id::InstrumentId;
use crate::console::id::StripId;
use crate::console::instrument::InstrumentView;
use crate::console::mix::bus_ids;
use crate::console::mix::bus_numbers;
use crate::console::mix::instrument_ids;
use crate::console::mix::instrument_numbers;
use crate::console::mix::jacks;
use crate::console::mix::strip_ids;
use crate::console::mix::strip_numbers;
use crate::console::mix::raised;
use crate::console::mix::MixerView;
use crate::console::output::JackView;
use crate::console::output::OutputSource;
use crate::console::output::PatchView;
use crate::console::output::MAX_OUTPUT_PATCHES;
use crate::console::strip::RouteTarget;
use crate::console::strip::SendState;
use crate::console::strip::StripView;
use crate::seqs::distinct_by;
use crate::seqs::filter_keeps_distinct;
use crate::seqs::filter_origins;
use crate::seqs::next_free_is_unused;
use crate::seqs::next_number;
use crate::single::Single;

verus! {

pub open spec fn strip_key() -> spec_fn(StripView) -> StripId {
    |strip: StripView| strip.id
}

pub open spec fn bus_key() -> spec_fn(BusView) -> BusId {
    |bus: BusView| bus.id
}

pub open spec fn instrument_key() -> spec_fn(InstrumentView) -> InstrumentId {
    |instrument: InstrumentView| instrument.id
}

pub open spec fn jack_key() -> spec_fn(PatchView) -> JackView {
    |patch: PatchView| patch.jack_of()
}

pub open spec fn dest_key() -> spec_fn(SendState) -> BusId {
    |send: SendState| send.dest
}

pub open spec fn within(value: Single, min: u32, max: u32) -> bool {
    (Single { bits: min }).at_most(value) && value.at_most(Single { bits: max })
}

/// A band that the equaliser accepts.
pub open spec fn sound_band(band: EqBand) -> bool {
    &&& within(band.freq_hz, EQ_FREQ_MIN_HZ, EQ_FREQ_MAX_HZ)
    &&& within(band.gain_db, EQ_GAIN_CUT_DB, EQ_GAIN_RANGE_DB)
    &&& within(band.q, EQ_Q_MIN, EQ_Q_MAX)
}

/// Whether the document holds a bus of that id and kind.
pub open spec fn has_bus(buses: Seq<BusView>, id: BusId, kind: BusKind) -> bool {
    exists|b: int| 0 <= b < buses.len() && (#[trigger] buses[b]).id == id && buses[b].kind == kind
}

/// Whether every send of a strip goes to an aux, at most one to each, and the route
/// ends at the master or a group; where `ranged`, whether every knob is in range too.
pub open spec fn sound_strip(ranged: bool, buses: Seq<BusView>, strip: StripView) -> bool {
    &&& ranged ==> {
        &&& within(strip.fader_db, FADER_MIN_DB, FADER_MAX_DB)
        &&& within(strip.gain_db, GAIN_MIN_DB, GAIN_MAX_DB)
        &&& within(strip.pan, PAN_LEFT, PAN_RIGHT)
        &&& sound_band(strip.eq.low)
        &&& sound_band(strip.eq.mid)
        &&& sound_band(strip.eq.high)
    }
    &&& distinct_by(strip.sends, dest_key())
    &&& forall|k: int| 0 <= k < strip.sends.len() ==> sound_send(ranged, buses, #[trigger] strip.sends[k])
    &&& match strip.route_to {
        RouteTarget::Master => true,
        RouteTarget::Bus { id } => has_bus(buses, id, BusKind::Group),
    }
}

pub open spec fn sound_send(ranged: bool, buses: Seq<BusView>, send: SendState) -> bool {
    &&& ranged ==> within(send.level_db, FADER_MIN_DB, FADER_MAX_DB)
    &&& has_bus(buses, send.dest, BusKind::Aux)
}

/// Whether a patch taps a channel that its source has.
pub open spec fn sound_patch(strips: Seq<StripView>, buses: Seq<BusView>, patch: PatchView) -> bool {
    match patch.source {
        OutputSource::Strip { id } => patch.source_channel < 1 && has_strip(strips, id),
        OutputSource::Bus { id } => (patch.source_channel < 2 && has_bus(buses, id, BusKind::Group))
            || (patch.source_channel < 1 && has_bus(buses, id, BusKind::Aux)),
        OutputSource::Master => patch.source_channel < 2,
    }
}

pub open spec fn has_strip(strips: Seq<StripView>, id: StripId) -> bool {
    exists|i: int| 0 <= i < strips.len() && (#[trigger] strips[i]).id == id
}

/// Whether an effects unit's input is there and, where `ranged`, its knobs are in
/// range.
pub open spec fn sound_fx(ranged: bool, buses: Seq<BusView>, fx: FxView) -> bool {
    &&& ranged ==> fx_fault(fx.params) is None && within(
        fx.return_level_db,
        FADER_MIN_DB,
        FADER_MAX_DB,
    )
    &&& has_bus(buses, fx.input, BusKind::Group) || has_bus(buses, fx.input, BusKind::Aux)
}

/// A document in which nothing dangles, nothing is claimed twice and nothing is over
/// its capacity; where `ranged`, every level is in range too.
pub open spec fn intact(ranged: bool, s: MixerView) -> bool {
    &&& s.strips.len() <= MAX_STRIPS
    &&& s.instruments.len() <= MAX_INSTRUMENTS
    &&& s.outputs.len() <= MAX_OUTPUT_PATCHES
    &&& distinct_by(s.strips, strip_key())
    &&& distinct_by(s.buses, bus_key())
    &&& distinct_by(s.instruments, instrument_key())
    &&& distinct_by(s.outputs, jack_key())
    &&& forall|i: int|
        0 <= i < s.strips.len() ==> sound_strip(ranged, s.buses, #[trigger] s.strips[i])
    &&& ranged ==> forall|i: int|
        0 <= i < s.buses.len() ==> within(
            (#[trigger] s.buses[i]).fader_db,
            FADER_MIN_DB,
            FADER_MAX_DB,
        )
    &&& forall|i: int| 0 <= i < s.fx.len() ==> sound_fx(ranged, s.buses, #[trigger] s.fx[i])
    &&& forall|i: int|
        0 <= i < s.outputs.len() ==> sound_patch(s.strips, s.buses, #[trigger] s.outputs[i])
    &&& ranged ==> within(s.master.fader_db, FADER_MIN_DB, FADER_MAX_DB)
}

/// A document in which nothing dangles, nothing is claimed twice and nothing is over
/// its capacity, whatever its levels.
pub open spec fn wired(s: MixerView) -> bool {
    intact(false, s)
}

/// A document that is wired and in which every level is in range.
pub open spec fn sound(s: MixerView) -> bool {
    intact(true, s)
}

/// The tape refuses exactly the commands after which the engine must
/// recompile.
pub proof fn the_tape_refuses_what_reshapes(command: MixCommand)
    ensures
        command.reshapes() <==> need(command) == ReconcileNeed::Topology,
{
}

/// An empty console is sound.
pub proof fn an_empty_console_is_sound(s: MixerView)
    requires
        s.strips.len() == 0,
        s.buses.len() == 0,
        s.fx.len() == 0,
        s.instruments.len() == 0,
        s.outputs.len() == 0,
        s.master.fader_db == (Single { bits: 0 }),
    ensures
        sound(s),
{
}

pub(crate) proof fn lemma_at(s: MixerView)
    ensures
        forall|id: StripId|
            #![trigger s.strip_at(id)]
            match s.strip_at(id) {
                Some(i) => 0 <= i < s.strips.len() && s.strips[i].id == id,
                None => !has_strip(s.strips, id),
            },
        forall|id: BusId|
            #![trigger s.bus_at(id)]
            match s.bus_at(id) {
                Some(i) => 0 <= i < s.buses.len() && s.buses[i].id == id,
                None => forall|b: int| 0 <= b < s.buses.len() ==> (#[trigger] s.buses[b]).id != id,
            },
        forall|id: crate::console::id::FxId|
            #![trigger s.fx_at(id)]
            match s.fx_at(id) {
                Some(i) => 0 <= i < s.fx.len() && s.fx[i].id == id,
                None => true,
            },
        forall|id: InstrumentId|
            #![trigger s.instrument_at(id)]
            match s.instrument_at(id) {
                Some(i) => 0 <= i < s.instruments.len() && s.instruments[i].id == id,
                None => forall|b: int|
                    0 <= b < s.instruments.len() ==> (#[trigger] s.instruments[b]).id != id,
            },
        forall|jack: JackView|
            #![trigger s.output_at(jack)]
            match s.output_at(jack) {
                Some(i) => 0 <= i < s.outputs.len() && s.outputs[i].jack_of() == jack,
                None => forall|b: int|
                    0 <= b < s.outputs.len() ==> (#[trigger] s.outputs[b]).jack_of() != jack,
            },
{
    assert forall|id: StripId|
        #![trigger s.strip_at(id)]
        match s.strip_at(id) {
            Some(i) => 0 <= i < s.strips.len() && s.strips[i].id == id,
            None => !has_strip(s.strips, id),
        } by {
        strip_ids(s.strips).index_of_first_ensures(id);
        if s.strip_at(id) is None && has_strip(s.strips, id) {
            let i = choose|i: int| 0 <= i < s.strips.len() && (#[trigger] s.strips[i]).id == id;
            assert(strip_ids(s.strips)[i] == id);
        }
    }
    assert forall|id: BusId|
        #![trigger s.bus_at(id)]
        match s.bus_at(id) {
            Some(i) => 0 <= i < s.buses.len() && s.buses[i].id == id,
            None => forall|b: int| 0 <= b < s.buses.len() ==> (#[trigger] s.buses[b]).id != id,
        } by {
        bus_ids(s.buses).index_of_first_ensures(id);
        assert forall|b: int| s.bus_at(id) is None && 0 <= b < s.buses.len() implies (
        #[trigger] s.buses[b]).id != id by {
            assert(bus_ids(s.buses)[b] == s.buses[b].id);
        }
    }
    assert forall|id: crate::console::id::FxId|
        #![trigger s.fx_at(id)]
        match s.fx_at(id) {
            Some(i) => 0 <= i < s.fx.len() && s.fx[i].id == id,
            None => true,
        } by {
        crate::console::mix::fx_ids(s.fx).index_of_first_ensures(id);
    }
    assert forall|id: InstrumentId|
        #![trigger s.instrument_at(id)]
        match s.instrument_at(id) {
            Some(i) => 0 <= i < s.instruments.len() && s.instruments[i].id == id,
            None => forall|b: int|
                0 <= b < s.instruments.len() ==> (#[trigger] s.instruments[b]).id != id,
        } by {
        instrument_ids(s.instruments).index_of_first_ensures(id);
        assert forall|b: int| s.instrument_at(id) is None && 0 <= b < s.instruments.len() implies (
        #[trigger] s.instruments[b]).id != id by {
            assert(instrument_ids(s.instruments)[b] == s.instruments[b].id);
        }
    }
    assert forall|jack: JackView|
        #![trigger s.output_at(jack)]
        match s.output_at(jack) {
            Some(i) => 0 <= i < s.outputs.len() && s.outputs[i].jack_of() == jack,
            None => forall|b: int|
                0 <= b < s.outputs.len() ==> (#[trigger] s.outputs[b]).jack_of() != jack,
        } by {
        jacks(s.outputs).index_of_first_ensures(jack);
        assert forall|b: int| s.output_at(jack) is None && 0 <= b < s.outputs.len() implies (
        #[trigger] s.outputs[b]).jack_of() != jack by {
            assert(jacks(s.outputs)[b] == s.outputs[b].jack_of());
        }
    }
}

/// Swapping one strip for another of the same id that is sound by itself
/// keeps the console sound.
proof fn lemma_strip_edit(ranged: bool, s: MixerView, i: int, strip: StripView)
    requires
        intact(ranged, s),
        0 <= i < s.strips.len(),
        strip.id == s.strips[i].id,
        sound_strip(ranged, s.buses, strip),
    ensures
        intact(ranged, MixerView { strips: s.strips.update(i, strip), ..s }),
{
    let strips = s.strips.update(i, strip);
    assert forall|id: StripId| has_strip(s.strips, id) implies has_strip(strips, id) by {
        let k = choose|k: int| 0 <= k < s.strips.len() && (#[trigger] s.strips[k]).id == id;
        assert(strips[k].id == id);
    }
}

/// Swapping one bus for another of the same id and kind keeps the console
/// sound.
proof fn lemma_bus_edit(ranged: bool, s: MixerView, i: int, bus: BusView)
    requires
        intact(ranged, s),
        0 <= i < s.buses.len(),
        bus.id == s.buses[i].id,
        bus.kind == s.buses[i].kind,
        ranged ==> within(bus.fader_db, FADER_MIN_DB, FADER_MAX_DB),
    ensures
        intact(ranged, MixerView { buses: s.buses.update(i, bus), ..s }),
{
    let buses = s.buses.update(i, bus);
    assert forall|id: BusId, kind: BusKind| has_bus(s.buses, id, kind) implies has_bus(
        buses,
        id,
        kind,
    ) by {
        let k = choose|k: int|
            0 <= k < s.buses.len() && (#[trigger] s.buses[k]).id == id && s.buses[k].kind == kind;
        assert(buses[k].id == id && buses[k].kind == kind);
    }
    assert forall|k: int| 0 <= k < s.strips.len() implies sound_strip(
        ranged,
        buses,
        #[trigger] s.strips[k],
    ) by {
        assert(sound_strip(ranged, s.buses, s.strips[k]));
        assert forall|j: int| 0 <= j < s.strips[k].sends.len() implies sound_send(
            ranged,
            buses,
            #[trigger] s.strips[k].sends[j],
        ) by {
            assert(sound_send(ranged, s.buses, s.strips[k].sends[j]));
        }
    }
}

/// Changing strips without touching ids, levels, sends or routes keeps the
/// console sound.
proof fn lemma_strips_edit(ranged: bool, s: MixerView, strips: Seq<StripView>)
    requires
        intact(ranged, s),
        strips.len() == s.strips.len(),
        forall|i: int|
            0 <= i < strips.len() ==> (#[trigger] strips[i]).id == s.strips[i].id && sound_strip(
                ranged,
                s.buses,
                strips[i],
            ),
    ensures
        intact(ranged, MixerView { strips, ..s }),
{
    assert forall|id: StripId| has_strip(s.strips, id) implies has_strip(strips, id) by {
        let k = choose|k: int| 0 <= k < s.strips.len() && (#[trigger] s.strips[k]).id == id;
        assert(strips[k].id == id);
    }
}

/// One strip more, of an id that nothing uses, keeps the console sound.
proof fn lemma_strip_push(ranged: bool, s: MixerView, strip: StripView)
    requires
        intact(ranged, s),
        s.strips.len() < MAX_STRIPS,
        sound_strip(ranged, s.buses, strip),
        !has_strip(s.strips, strip.id),
    ensures
        intact(ranged, MixerView { strips: s.strips.push(strip), ..s }),
{
    let strips = s.strips.push(strip);
    assert forall|id: StripId| has_strip(s.strips, id) implies has_strip(strips, id) by {
        let k = choose|k: int| 0 <= k < s.strips.len() && (#[trigger] s.strips[k]).id == id;
        assert(strips[k].id == id);
    }
}

/// The next strip number is on no strip.
proof fn lemma_fresh_strip_id(mark: u64, strips: Seq<StripView>)
    requires
        next_number(mark, strip_numbers(strips)) <= u32::MAX,
    ensures
        !has_strip(strips, StripId(next_number(mark, strip_numbers(strips)) as u32)),
{
    let numbers = strip_numbers(strips);
    next_free_is_unused(numbers);
    assert forall|i: int| 0 <= i < strips.len() implies (#[trigger] strips[i]).id != StripId(
        next_number(mark, numbers) as u32,
    ) by {
        assert(numbers[i] == strips[i].id.0);
    }
}

/// A fresh strip is sound on any console.
proof fn lemma_fresh_strip_sound(ranged: bool, buses: Seq<BusView>, id: StripId, name: Seq<char>)
    ensures
        sound_strip(ranged, buses, crate::console::strip::fresh_strip(id, name)),
{
}

proof fn lemma_desk_sound(
    ranged: bool,
    s: MixerView,
    strips: Seq<StripView>,
    id: InstrumentId,
    names: Seq<Seq<char>>,
    channel: int,
)
    requires
        intact(ranged, MixerView { strips, ..s }),
        desk_numbers_fit(s.strip_mark, strips, id, names, channel),
        desk_with(s.strip_mark, strips, id, names, channel) is Ok,
    ensures
        intact(ranged, MixerView { strips: desk_with(s.strip_mark, strips, id, names, channel)->Ok_0, ..s }),
    decreases names.len() - channel,
{
    if channel < 0 || channel >= names.len() {
    } else if on_the_desk(strips, channel_patch(id, channel)) {
        lemma_desk_sound(ranged, s, strips, id, names, channel + 1);
    } else {
        let name = tape_name(names[channel])->Ok_0;
        let strip = channel_strip(s.strip_mark, strips, id, channel, name);
        lemma_fresh_strip_id(s.strip_mark, strips);
        lemma_fresh_strip_sound(ranged, s.buses, strip.id, name);
        lemma_strip_push(ranged, MixerView { strips, ..s }, strip);
        lemma_desk_sound(ranged, s, strips.push(strip), id, names, channel + 1);
    }
}

proof fn lemma_send_sound(ranged: bool, s: MixerView, i: int, send: SendState)
    requires
        intact(ranged, s),
        0 <= i < s.strips.len(),
        sound_send(ranged, s.buses, send),
    ensures
        sound_strip(
            ranged,
            s.buses,
            StripView { sends: with_send(s.strips[i].sends, send), ..s.strips[i] },
        ),
{
    let sends = s.strips[i].sends;
    assert(sound_strip(ranged, s.buses, s.strips[i]));
    dests(sends).index_of_first_ensures(send.dest);
    match dests(sends).index_of_first(send.dest) {
        Some(k) => {
            assert(dests(sends)[k] == sends[k].dest);
        },
        None => {
            assert forall|k: int| 0 <= k < sends.len() implies (#[trigger] sends[k]).dest
                != send.dest by {
                assert(dests(sends)[k] == sends[k].dest);
            }
        },
    }
}

proof fn lemma_remove_strip_sound(ranged: bool, s: MixerView, id: StripId)
    requires
        intact(ranged, s),
    ensures
        intact(
            ranged,
            MixerView {
                strips: s.strips.filter(other_strip(id)),
                outputs: s.outputs.filter(other_source(OutputSource::Strip { id })),
                strip_mark: raised(s.strip_mark, id.0),
                ..s
            },
        ),
{
    let strips = s.strips.filter(other_strip(id));
    let outputs = s.outputs.filter(other_source(OutputSource::Strip { id }));
    let kept = filter_origins(s.strips, other_strip(id));
    let wired = filter_origins(s.outputs, other_source(OutputSource::Strip { id }));
    filter_keeps_distinct(s.strips, other_strip(id), strip_key());
    filter_keeps_distinct(s.outputs, other_source(OutputSource::Strip { id }), jack_key());
    s.strips.lemma_filter_len(other_strip(id));
    s.outputs.lemma_filter_len(other_source(OutputSource::Strip { id }));
    assert forall|i: int| 0 <= i < outputs.len() implies sound_patch(
        strips,
        s.buses,
        #[trigger] outputs[i],
    ) by {
        assert(outputs[i] == s.outputs[wired[i]]);
        match outputs[i].source {
            OutputSource::Strip { id: fed } => {
                let k = choose|k: int| 0 <= k < s.strips.len() && (#[trigger] s.strips[k]).id == fed;
                assert(kept.contains(k));
                let j = choose|j: int| 0 <= j < kept.len() && kept[j] == k;
                assert(strips[j].id == fed);
            },
            _ => {},
        }
    }
    assert forall|i: int| 0 <= i < strips.len() implies sound_strip(
        ranged,
        s.buses,
        #[trigger] strips[i],
    ) by {
        assert(strips[i] == s.strips[kept[i]]);
    }
}

proof fn lemma_has_bus_after(s: MixerView, gone: BusId, id: BusId, kind: BusKind)
    requires
        has_bus(s.buses, id, kind),
        id != gone,
    ensures
        has_bus(s.buses.filter(other_bus(gone)), id, kind),
{
    let buses = s.buses.filter(other_bus(gone));
    let kept = filter_origins(s.buses, other_bus(gone));
    let k = choose|k: int|
        0 <= k < s.buses.len() && (#[trigger] s.buses[k]).id == id && s.buses[k].kind == kind;
    assert(kept.contains(k));
    let j = choose|j: int| 0 <= j < kept.len() && kept[j] == k;
    assert(buses[j].id == id && buses[j].kind == kind);
}

proof fn lemma_strip_without_bus_sound(ranged: bool, s: MixerView, strip: StripView, id: BusId)
    requires
        sound_strip(ranged, s.buses, strip),
    ensures
        sound_strip(ranged, s.buses.filter(other_bus(id)), without_bus(strip, id)),
{
    let buses = s.buses.filter(other_bus(id));
    let healed = without_bus(strip, id);
    let from = filter_origins(strip.sends, other_dest(id));
    filter_keeps_distinct(strip.sends, other_dest(id), dest_key());
    assert forall|k: int| 0 <= k < healed.sends.len() implies sound_send(
        ranged,
        buses,
        #[trigger] healed.sends[k],
    ) by {
        let send = strip.sends[from[k]];
        assert(healed.sends[k] == send);
        assert(sound_send(ranged, s.buses, send));
        lemma_has_bus_after(s, id, send.dest, BusKind::Aux);
    }
    match healed.route_to {
        RouteTarget::Master => {},
        RouteTarget::Bus { id: to } => {
            lemma_has_bus_after(s, id, to, BusKind::Group);
        },
    }
}

proof fn lemma_remove_bus_sound(ranged: bool, s: MixerView, id: BusId)
    requires
        intact(ranged, s),
        bus_removed(s, id) is Ok,
    ensures
        intact(ranged, bus_removed(s, id)->Ok_0.0),
{
    let next = bus_removed(s, id)->Ok_0.0;
    let gone = OutputSource::Bus { id };
    let kept = filter_origins(s.buses, other_bus(id));
    let wired = filter_origins(s.outputs, other_source(gone));
    filter_keeps_distinct(s.buses, other_bus(id), bus_key());
    filter_keeps_distinct(s.outputs, other_source(gone), jack_key());
    s.outputs.lemma_filter_len(other_source(gone));
    assert forall|i: int| ranged && 0 <= i < next.buses.len() implies within(
        (#[trigger] next.buses[i]).fader_db,
        FADER_MIN_DB,
        FADER_MAX_DB,
    ) by {
        assert(next.buses[i] == s.buses[kept[i]]);
    }
    assert forall|i: int| 0 <= i < next.strips.len() implies sound_strip(
        ranged,
        next.buses,
        #[trigger] next.strips[i],
    ) by {
        assert(next.strips[i] == without_bus(s.strips[i], id));
        lemma_strip_without_bus_sound(ranged, s, s.strips[i], id);
    }
    assert forall|i: int| 0 <= i < next.fx.len() implies sound_fx(
        ranged,
        next.buses,
        #[trigger] next.fx[i],
    ) by {
        let fx = s.fx[i];
        assert(fx.input != id);
        if has_bus(s.buses, fx.input, BusKind::Group) {
            lemma_has_bus_after(s, id, fx.input, BusKind::Group);
        }
        if has_bus(s.buses, fx.input, BusKind::Aux) {
            lemma_has_bus_after(s, id, fx.input, BusKind::Aux);
        }
    }
    assert forall|id: StripId| has_strip(s.strips, id) implies has_strip(next.strips, id) by {
        let k = choose|k: int| 0 <= k < s.strips.len() && (#[trigger] s.strips[k]).id == id;
        assert(next.strips[k].id == id);
    }
    assert forall|i: int| 0 <= i < next.outputs.len() implies sound_patch(
        next.strips,
        next.buses,
        #[trigger] next.outputs[i],
    ) by {
        assert(next.outputs[i] == s.outputs[wired[i]]);
        assert(sound_patch(s.strips, s.buses, s.outputs[wired[i]]));
        match next.outputs[i].source {
            OutputSource::Bus { id: fed } => {
                if has_bus(s.buses, fed, BusKind::Group) {
                    lemma_has_bus_after(s, id, fed, BusKind::Group);
                }
                if has_bus(s.buses, fed, BusKind::Aux) {
                    lemma_has_bus_after(s, id, fed, BusKind::Aux);
                }
            },
            _ => {},
        }
    }
    assert forall|i: int, j: int| 0 <= i < j < next.strips.len() implies strip_key()(
        #[trigger] next.strips[i],
    ) != strip_key()(#[trigger] next.strips[j]) by {
        assert(strip_key()(s.strips[i]) != strip_key()(s.strips[j]));
    }
}

proof fn lemma_add_bus_sound(ranged: bool, s: MixerView, bus: BusView)
    requires
        intact(ranged, s),
        ranged ==> within(bus.fader_db, FADER_MIN_DB, FADER_MAX_DB),
        forall|b: int| 0 <= b < s.buses.len() ==> (#[trigger] s.buses[b]).id != bus.id,
    ensures
        intact(ranged, MixerView { buses: s.buses.push(bus), ..s }),
{
    let buses = s.buses.push(bus);
    assert forall|id: BusId, kind: BusKind| has_bus(s.buses, id, kind) implies has_bus(
        buses,
        id,
        kind,
    ) by {
        let k = choose|k: int|
            0 <= k < s.buses.len() && (#[trigger] s.buses[k]).id == id && s.buses[k].kind == kind;
        assert(buses[k].id == id && buses[k].kind == kind);
    }
    assert forall|k: int| 0 <= k < s.strips.len() implies sound_strip(
        ranged,
        buses,
        #[trigger] s.strips[k],
    ) by {
        assert(sound_strip(ranged, s.buses, s.strips[k]));
        assert forall|j: int| 0 <= j < s.strips[k].sends.len() implies sound_send(
            ranged,
            buses,
            #[trigger] s.strips[k].sends[j],
        ) by {
            assert(sound_send(ranged, s.buses, s.strips[k].sends[j]));
        }
    }
}

proof fn lemma_patched_sound(ranged: bool, s: MixerView, patch: PatchView)
    requires
        intact(ranged, s),
        sound_patch(s.strips, s.buses, patch),
        s.output_at(patch.jack_of()) is None ==> s.outputs.len() < MAX_OUTPUT_PATCHES,
    ensures
        match s.output_at(patch.jack_of()) {
            Some(i) => intact(ranged, MixerView { outputs: s.outputs.update(i, patch), ..s }),
            None => intact(ranged, MixerView { outputs: s.outputs.push(patch), ..s }),
        },
{
    lemma_at(s);
}

/// What every operation keeps: a command that goes through leaves a sound
/// console sound.
pub proof fn the_console_stays_sound(s: MixerView, command: MixCommand)
    requires
        sound(s),
        numbers_fit(s, command),
        change(s, command) is Ok,
    ensures
        sound(change(s, command)->Ok_0.0),
{
    lemma_stays_intact(true, s, command);
}

/// Whatever the levels are, no command overfills the console, hands out an id or a
/// jack twice, or leaves a send, a route, an effects feed or an output patch dangling.
pub proof fn the_console_stays_wired(s: MixerView, command: MixCommand)
    requires
        wired(s),
        numbers_fit(s, command),
        change(s, command) is Ok,
    ensures
        wired(change(s, command)->Ok_0.0),
{
    lemma_stays_intact(false, s, command);
}

#[verifier::rlimit(60)]
proof fn lemma_stays_intact(ranged: bool, s: MixerView, command: MixCommand)
    requires
        intact(ranged, s),
        numbers_fit(s, command),
        change(s, command) is Ok,
    ensures
        intact(ranged, change(s, command)->Ok_0.0),
{
    lemma_at(s);
    let next = change(s, command)->Ok_0.0;
    match command {
        MixCommand::AddStrip { .. } => {
            lemma_fresh_strip_id(s.strip_mark, s.strips);
            let strip = next.strips.last();
            lemma_fresh_strip_sound(ranged, s.buses, strip.id, strip.name);
            lemma_strip_push(ranged, s, strip);
        },
        MixCommand::RemoveStrip { id } => {
            lemma_remove_strip_sound(ranged, s, id);
        },
        MixCommand::SetSend { strip, dest, level_db, tap } => {
            let i = s.strip_at(strip)->0;
            let send = SendState { dest, level_db, tap };
            assert(s.buses[s.bus_at(dest)->0].id == dest);
            assert(has_bus(s.buses, dest, BusKind::Aux));
            lemma_send_sound(ranged, s, i, send);
            lemma_strip_edit(ranged, s, i, next.strips[i]);
        },
        MixCommand::SetRoute { strip, to } => {
            let i = s.strip_at(strip)->0;
            assert(sound_strip(ranged, s.buses, s.strips[i]));
            match to {
                RouteTarget::Master => {},
                RouteTarget::Bus { id } => {
                    assert(s.buses[s.bus_at(id)->0].id == id);
                    assert(has_bus(s.buses, id, BusKind::Group));
                },
            }
            lemma_strip_edit(ranged, s, i, next.strips[i]);
        },
        MixCommand::AddBus { .. } => {
            let numbers = bus_numbers(s.buses);
            next_free_is_unused(numbers);
            let bus = next.buses.last();
            assert forall|b: int| 0 <= b < s.buses.len() implies (#[trigger] s.buses[b]).id
                != bus.id by {
                assert(numbers[b] == s.buses[b].id.0);
            }
            lemma_add_bus_sound(ranged, s, bus);
        },
        MixCommand::RemoveBus { id } => {
            lemma_remove_bus_sound(ranged, s, id);
        },
        MixCommand::AddInstrument { .. } => {
            let numbers = instrument_numbers(s.instruments);
            next_free_is_unused(numbers);
            assert forall|b: int| 0 <= b < s.instruments.len() implies (
            #[trigger] s.instruments[b]).id != next.instruments.last().id by {
                assert(numbers[b] == s.instruments[b].id.0);
            }
        },
        MixCommand::RemoveInstrument { id } => {
            filter_keeps_distinct(s.instruments, other_instrument(id), instrument_key());
            s.instruments.lemma_filter_len(other_instrument(id));
            lemma_strips_healed(ranged, s, next.strips);
            lemma_strips_edit(ranged, s, next.strips);
        },
        MixCommand::SetInstrumentSplits { .. } => {
            lemma_strips_healed(ranged, s, next.strips);
            lemma_strips_edit(ranged, s, next.strips);
        },
        MixCommand::SetRecordArmAll { .. } => {
            lemma_strips_healed(ranged, s, next.strips);
            lemma_strips_edit(ranged, s, next.strips);
        },
        MixCommand::AddInstrumentStrips { id } => {
            let i = s.instrument_at(id)->0;
            lemma_desk_sound(ranged, s, s.strips, id, s.instruments[i].names(), 0);
        },
        MixCommand::SetOutputPatch { patch } => {
            match patch@.source {
                OutputSource::Strip { id } => {
                    assert(s.strips[s.strip_at(id)->0].id == id);
                },
                OutputSource::Bus { id } => {
                    assert(s.buses[s.bus_at(id)->0].id == id);
                },
                OutputSource::Master => {},
            }
            lemma_patched_sound(ranged, s, patch@);
        },
        MixCommand::ClearOutputPatch { jack } => {
            let wired = filter_origins(s.outputs, other_jack(jack@));
            filter_keeps_distinct(s.outputs, other_jack(jack@), jack_key());
            s.outputs.lemma_filter_len(other_jack(jack@));
            assert forall|i: int| 0 <= i < next.outputs.len() implies sound_patch(
                s.strips,
                s.buses,
                #[trigger] next.outputs[i],
            ) by {
                assert(next.outputs[i] == s.outputs[wired[i]]);
            }
        },
        MixCommand::SetOutputTap { .. } => {},
        MixCommand::SetFxParams { .. } | MixCommand::SetFxReturn { .. } => {},
        MixCommand::SetInstrumentVoice { .. } => {},
        MixCommand::SetInstrumentPerformance { .. } => {},
        _ => {
            lemma_simple_edit_sound(ranged, s, command);
        },
    }
}

/// Strips that differ in their inputs and arms alone stay sound.
proof fn lemma_strips_healed(ranged: bool, s: MixerView, strips: Seq<StripView>)
    requires
        intact(ranged, s),
        strips.len() == s.strips.len(),
        forall|i: int|
            0 <= i < strips.len() ==> (#[trigger] strips[i]) == (StripView {
                input: strips[i].input,
                record_arm: strips[i].record_arm,
                ..s.strips[i]
            }),
    ensures
        forall|i: int|
            0 <= i < strips.len() ==> (#[trigger] strips[i]).id == s.strips[i].id && sound_strip(
                ranged,
                s.buses,
                strips[i],
            ),
{
    assert forall|i: int| 0 <= i < strips.len() implies (#[trigger] strips[i]).id
        == s.strips[i].id && sound_strip(ranged, s.buses, strips[i]) by {
        assert(sound_strip(ranged, s.buses, s.strips[i]));
    }
}

/// Commands that move one knob or switch of one strip, one bus or the master.
proof fn lemma_simple_edit_sound(ranged: bool, s: MixerView, command: MixCommand)
    requires
        intact(ranged, s),
        change(s, command) is Ok,
        match command {
            MixCommand::SetFader { .. }
            | MixCommand::SetGain { .. }
            | MixCommand::SetEqBand { .. }
            | MixCommand::SetEqEnabled { .. }
            | MixCommand::SetPan { .. }
            | MixCommand::SetMute { .. }
            | MixCommand::SetPfl { .. }
            | MixCommand::SetInput { .. }
            | MixCommand::Rename { .. }
            | MixCommand::SetRecordArm { .. } => true,
            _ => false,
        },
    ensures
        intact(ranged, change(s, command)->Ok_0.0),
{
    lemma_at(s);
    let next = change(s, command)->Ok_0.0;
    let (strip, bus) = match command {
        MixCommand::SetFader { target, .. } => targeted(s, target),
        MixCommand::SetMute { target, .. } => targeted(s, target),
        MixCommand::SetPfl { target, .. } => targeted(s, target),
        MixCommand::Rename { target, .. } => targeted(s, target),
        MixCommand::SetRecordArm { target, .. } => targeted(s, target),
        MixCommand::SetGain { strip, .. } => (s.strip_at(strip), None),
        MixCommand::SetEqBand { strip, .. } => (s.strip_at(strip), None),
        MixCommand::SetEqEnabled { strip, .. } => (s.strip_at(strip), None),
        MixCommand::SetPan { strip, .. } => (s.strip_at(strip), None),
        MixCommand::SetInput { strip, .. } => (s.strip_at(strip), None),
        _ => (None, None),
    };
    if strip is Some {
        let i = strip->0;
        assert(sound_strip(ranged, s.buses, s.strips[i]));
        lemma_strip_edit(ranged, s, i, next.strips[i]);
    } else if bus is Some {
        lemma_bus_edit(ranged, s, bus->0, next.buses[bus->0]);
    }
}

/// The strip or the bus that a fader target names.
spec fn targeted(s: MixerView, target: crate::console::command::FaderTarget) -> (
    Option<int>,
    Option<int>,
) {
    match target {
        crate::console::command::FaderTarget::Strip { id } => (s.strip_at(id), None),
        crate::console::command::FaderTarget::Bus { id } => (None, s.bus_at(id)),
        crate::console::command::FaderTarget::Master => (None, None),
    }
}

/// After a bus is removed nothing names it: no route, no send, no patch.
pub proof fn a_removed_bus_leaves_nothing_dangling(s: MixerView, id: BusId)
    requires
        change(s, MixCommand::RemoveBus { id }) is Ok,
    ensures
        ({
            let next = change(s, MixCommand::RemoveBus { id })->Ok_0.0;
            &&& forall|b: int| 0 <= b < next.buses.len() ==> (#[trigger] next.buses[b]).id != id
            &&& forall|i: int|
                0 <= i < next.strips.len() ==> (#[trigger] next.strips[i]).route_to != (
                RouteTarget::Bus { id })
            &&& forall|i: int, k: int|
                0 <= i < next.strips.len() && 0 <= k < next.strips[i].sends.len() ==> (
                #[trigger] next.strips[i].sends[k]).dest != id
            &&& forall|f: int| 0 <= f < next.fx.len() ==> (#[trigger] next.fx[f]).input != id
            &&& forall|o: int|
                0 <= o < next.outputs.len() ==> (#[trigger] next.outputs[o]).source != (
                OutputSource::Bus { id })
        }),
{
    let next = change(s, MixCommand::RemoveBus { id })->Ok_0.0;
    let kept = filter_origins(s.buses, other_bus(id));
    let wired = filter_origins(s.outputs, other_source(OutputSource::Bus { id }));
    assert forall|i: int, k: int|
        0 <= i < next.strips.len() && 0 <= k < next.strips[i].sends.len() implies (
    #[trigger] next.strips[i].sends[k]).dest != id by {
        let from = filter_origins(s.strips[i].sends, other_dest(id));
        assert(next.strips[i].sends[k] == s.strips[i].sends[from[k]]);
    }
    assert forall|o: int| 0 <= o < next.outputs.len() implies (#[trigger] next.outputs[o]).source
        != (OutputSource::Bus { id }) by {
        assert(next.outputs[o] == s.outputs[wired[o]]);
    }
    assert forall|b: int| 0 <= b < next.buses.len() implies (#[trigger] next.buses[b]).id
        != id by {
        assert(next.buses[b] == s.buses[kept[b]]);
    }
}

/// After a strip is removed nothing names it, and every other strip is as it
/// was, in the same order.
pub proof fn a_removed_strip_leaves_nothing_dangling(s: MixerView, id: StripId)
    requires
        change(s, MixCommand::RemoveStrip { id }) is Ok,
    ensures
        ({
            let next = change(s, MixCommand::RemoveStrip { id })->Ok_0.0;
            &&& !has_strip(next.strips, id)
            &&& forall|o: int|
                0 <= o < next.outputs.len() ==> (#[trigger] next.outputs[o]).source != (
                OutputSource::Strip { id })
            &&& next.strips == s.strips.filter(other_strip(id))
        }),
{
    let next = change(s, MixCommand::RemoveStrip { id })->Ok_0.0;
    let kept = filter_origins(s.strips, other_strip(id));
    let wired = filter_origins(s.outputs, other_source(OutputSource::Strip { id }));
    assert forall|o: int| 0 <= o < next.outputs.len() implies (#[trigger] next.outputs[o]).source
        != (OutputSource::Strip { id }) by {
        assert(next.outputs[o] == s.outputs[wired[o]]);
    }
    assert forall|i: int| 0 <= i < next.strips.len() implies (#[trigger] next.strips[i]).id
        != id by {
        assert(next.strips[i] == s.strips[kept[i]]);
    }
}

/// After an instrument is removed no strip is patched to it.
pub proof fn a_removed_instrument_is_played_by_nobody(s: MixerView, id: InstrumentId)
    requires
        change(s, MixCommand::RemoveInstrument { id }) is Ok,
    ensures
        ({
            let next = change(s, MixCommand::RemoveInstrument { id })->Ok_0.0;
            &&& forall|i: int|
                0 <= i < next.instruments.len() ==> (#[trigger] next.instruments[i]).id != id
            &&& forall|i: int|
                0 <= i < next.strips.len() ==> !plays(id)(#[trigger] next.strips[i])
        }),
{
    let next = change(s, MixCommand::RemoveInstrument { id })->Ok_0.0;
    let kept = filter_origins(s.instruments, other_instrument(id));
    assert forall|i: int| 0 <= i < next.instruments.len() implies (
    #[trigger] next.instruments[i]).id != id by {
        assert(next.instruments[i] == s.instruments[kept[i]]);
    }
}

/// After an instrument's layout changed no patch points past its width.
pub proof fn no_patch_points_past_the_width(
    s: MixerView,
    id: InstrumentId,
    splits: Vec<crate::console::instrument::InstrumentSplit>,
)
    requires
        change(s, MixCommand::SetInstrumentSplits { id, splits }) is Ok,
    ensures
        ({
            let next = change(s, MixCommand::SetInstrumentSplits { id, splits })->Ok_0.0;
            let width = next.instruments[s.instrument_at(id)->0].width();
            forall|i: int|
                0 <= i < next.strips.len() && plays(id)(#[trigger] next.strips[i])
                    ==> next.strips[i].input->0.channel_of() < width
        }),
{
    lemma_at(s);
}

/// A jack holds one patch: patching it leaves that patch on it and no other,
/// and every other patch where it was.
pub proof fn a_jack_holds_one_patch(s: MixerView, patch: crate::console::output::OutputPatch)
    requires
        distinct_by(s.outputs, jack_key()),
        change(s, MixCommand::SetOutputPatch { patch }) is Ok,
    ensures
        ({
            let next = change(s, MixCommand::SetOutputPatch { patch })->Ok_0.0;
            &&& distinct_by(next.outputs, jack_key())
            &&& next.outputs.contains(patch@)
            &&& forall|o: int|
                0 <= o < next.outputs.len() && (#[trigger] next.outputs[o]).jack_of()
                    == patch@.jack_of() ==> next.outputs[o] == patch@
            &&& forall|o: int|
                0 <= o < s.outputs.len() && (#[trigger] s.outputs[o]).jack_of()
                    != patch@.jack_of() ==> next.outputs[o] == s.outputs[o]
        }),
{
    lemma_at(s);
    let next = change(s, MixCommand::SetOutputPatch { patch })->Ok_0.0;
    match s.output_at(patch@.jack_of()) {
        Some(i) => {
            assert(next.outputs[i] == patch@);
            assert forall|o: int|
                0 <= o < next.outputs.len() && (#[trigger] next.outputs[o]).jack_of()
                    == patch@.jack_of() implies next.outputs[o] == patch@ by {
                if o < i {
                    assert(jack_key()(s.outputs[o]) != jack_key()(s.outputs[i]));
                } else if i < o {
                    assert(jack_key()(s.outputs[i]) != jack_key()(s.outputs[o]));
                }
            }
        },
        None => {
            assert(next.outputs[s.outputs.len() as int] == patch@);
        },
    }
}

/// Clearing a jack leaves nothing on it.
pub proof fn a_cleared_jack_is_empty(s: MixerView, jack: crate::console::output::OutputJack)
    requires
        change(s, MixCommand::ClearOutputPatch { jack }) is Ok,
    ensures
        change(s, MixCommand::ClearOutputPatch { jack })->Ok_0.0.output_at(jack@) is None,
{
    let next = change(s, MixCommand::ClearOutputPatch { jack })->Ok_0.0;
    let wired = filter_origins(s.outputs, other_jack(jack@));
    assert forall|o: int| 0 <= o < jacks(next.outputs).len() implies jacks(next.outputs)[o]
        != jack@ by {
        assert(next.outputs[o] == s.outputs[wired[o]]);
    }
    crate::seqs::lemma_absent(jacks(next.outputs), jack@);
}

/// What the desk looks like once every channel has a strip.
pub(crate) proof fn lemma_desk_complete(
    mark: u64,
    strips: Seq<StripView>,
    id: InstrumentId,
    names: Seq<Seq<char>>,
    channel: int,
)
    requires
        desk_with(mark, strips, id, names, channel) is Ok,
        0 <= channel,
    ensures
        ({
            let desk = desk_with(mark, strips, id, names, channel)->Ok_0;
            &&& desk.len() >= strips.len()
            &&& desk.take(strips.len() as int) == strips
            &&& forall|c: int|
                channel <= c < names.len() ==> on_the_desk(desk, #[trigger] channel_patch(id, c))
        }),
    decreases names.len() - channel,
{
    let desk = desk_with(mark, strips, id, names, channel)->Ok_0;
    if channel >= names.len() {
        assert(strips.take(strips.len() as int) =~= strips);
    } else if on_the_desk(strips, channel_patch(id, channel)) {
        lemma_desk_complete(mark, strips, id, names, channel + 1);
        let i = choose|i: int|
            0 <= i < strips.len() && (#[trigger] strips[i]).input == Some(
                channel_patch(id, channel),
            );
        assert(desk[i] == desk.take(strips.len() as int)[i]);
        assert(desk[i].input == Some(channel_patch(id, channel)));
        assert forall|c: int| channel <= c < names.len() implies on_the_desk(
            desk,
            #[trigger] channel_patch(id, c),
        ) by {
            if c > channel {
                assert(channel + 1 <= c);
            }
        }
    } else {
        let name = tape_name(names[channel])->Ok_0;
        let strip = channel_strip(mark, strips, id, channel, name);
        let longer = strips.push(strip);
        lemma_desk_complete(mark, longer, id, names, channel + 1);
        assert(desk.take(strips.len() as int) =~= longer.take(strips.len() as int)) by {
            assert(desk.take(longer.len() as int) == longer);
            assert forall|i: int| 0 <= i < strips.len() implies desk[i] == longer[i] by {
                assert(desk.take(longer.len() as int)[i] == longer[i]);
            }
        }
        assert(longer.take(strips.len() as int) =~= strips);
        assert(desk.take(longer.len() as int)[strips.len() as int] == strip);
        assert(desk[strips.len() as int].input == Some(channel_patch(id, channel)));
        assert forall|c: int| channel <= c < names.len() implies on_the_desk(
            desk,
            #[trigger] channel_patch(id, c),
        ) by {
            if c > channel {
                assert(channel + 1 <= c);
            }
        }
    }
}

proof fn lemma_desk_full(
    mark: u64,
    strips: Seq<StripView>,
    id: InstrumentId,
    names: Seq<Seq<char>>,
    channel: int,
)
    requires
        0 <= channel,
        forall|c: int|
            channel <= c < names.len() ==> on_the_desk(strips, #[trigger] channel_patch(id, c)),
    ensures
        desk_with(mark, strips, id, names, channel) == Ok::<Seq<StripView>, ErrorView>(strips),
    decreases names.len() - channel,
{
    if channel < names.len() {
        assert(on_the_desk(strips, channel_patch(id, channel)));
        lemma_desk_full(mark, strips, id, names, channel + 1);
    }
}

/// Putting an instrument on the desk gives every channel a strip, leaves the
/// strips that were there as they were, and done a second time does nothing.
pub proof fn adding_channels_twice_is_adding_them_once(s: MixerView, id: InstrumentId)
    requires
        change(s, MixCommand::AddInstrumentStrips { id }) is Ok,
    ensures
        ({
            let next = change(s, MixCommand::AddInstrumentStrips { id })->Ok_0.0;
            let names = s.instruments[s.instrument_at(id)->0].names();
            &&& next.strips.len() >= s.strips.len()
            &&& next.strips.take(s.strips.len() as int) == s.strips
            &&& forall|c: int|
                0 <= c < names.len() ==> on_the_desk(next.strips, #[trigger] channel_patch(id, c))
            &&& change(next, MixCommand::AddInstrumentStrips { id }) == Ok::<
                (MixerView, DeltaView),
                ErrorView,
            >((next, DeltaView::InstrumentStripsAdded { id, added: Seq::empty() }))
        }),
{
    let next = change(s, MixCommand::AddInstrumentStrips { id })->Ok_0.0;
    let names = s.instruments[s.instrument_at(id)->0].names();
    lemma_desk_complete(s.strip_mark, s.strips, id, names, 0);
    lemma_desk_full(s.strip_mark, next.strips, id, names, 0);
    assert(next.instrument_at(id) == s.instrument_at(id));
    assert(next.strips.skip(next.strips.len() as int) =~= Seq::<StripView>::empty());
    assert(next =~= (MixerView { strips: next.strips, ..next }));
}

/// What a record tap and the compiled graph are bound to.
pub open spec fn same_desk(a: MixerView, b: MixerView) -> bool {
    &&& a.strips.len() == b.strips.len()
    &&& a.buses.len() == b.buses.len()
    &&& a.fx.len() == b.fx.len()
    &&& a.instruments.len() == b.instruments.len()
    &&& a.outputs.len() == b.outputs.len()
    &&& forall|i: int|
        0 <= i < a.strips.len() ==> (#[trigger] a.strips[i]).id == b.strips[i].id
            && a.strips[i].input == b.strips[i].input && a.strips[i].route_to
            == b.strips[i].route_to
    &&& forall|i: int|
        0 <= i < a.buses.len() ==> (#[trigger] a.buses[i]).id == b.buses[i].id && a.buses[i].kind
            == b.buses[i].kind
    &&& forall|i: int|
        0 <= i < a.fx.len() ==> (#[trigger] a.fx[i]).id == b.fx[i].id && a.fx[i].input
            == b.fx[i].input && (a.fx[i].params is Reverb) == (b.fx[i].params is Reverb)
    &&& forall|i: int|
        0 <= i < a.instruments.len() ==> (#[trigger] a.instruments[i]).id == b.instruments[i].id
            && a.instruments[i].splits == b.instruments[i].splits && a.instruments[i].soundfont
            == b.instruments[i].soundfont && a.instruments[i].polyphony
            == b.instruments[i].polyphony && a.instruments[i].effects == b.instruments[i].effects
    &&& forall|i: int|
        0 <= i < a.outputs.len() ==> (#[trigger] a.outputs[i]).jack_of() == b.outputs[i].jack_of()
            && a.outputs[i].source == b.outputs[i].source && a.outputs[i].source_channel
            == b.outputs[i].source_channel
}

/// A command that the tape lets through while it rolls moves nothing that a
/// take is bound to: strips, their order and inputs, routes, buses, effects,
/// synthesisers and patches stay.
pub proof fn a_rolling_tape_keeps_its_desk(s: MixerView, command: MixCommand)
    requires
        !command.reshapes(),
        change(s, command) is Ok,
    ensures
        same_desk(s, change(s, command)->Ok_0.0),
{
    lemma_at(s);
    let next = change(s, command)->Ok_0.0;
    match command {
        MixCommand::SetFader { target, .. } => lemma_target_desk(s, next, target),
        MixCommand::SetMute { target, .. } => lemma_target_desk(s, next, target),
        MixCommand::SetPfl { target, .. } => lemma_target_desk(s, next, target),
        MixCommand::Rename { target, .. } => lemma_target_desk(s, next, target),
        MixCommand::SetRecordArm { target, .. } => lemma_target_desk(s, next, target),
        MixCommand::SetGain { strip, .. } => lemma_strip_desk(s, next, s.strip_at(strip)->0),
        MixCommand::SetEqBand { strip, .. } => lemma_strip_desk(s, next, s.strip_at(strip)->0),
        MixCommand::SetEqEnabled { strip, .. } => lemma_strip_desk(s, next, s.strip_at(strip)->0),
        MixCommand::SetPan { strip, .. } => lemma_strip_desk(s, next, s.strip_at(strip)->0),
        MixCommand::SetSend { strip, .. } => lemma_strip_desk(s, next, s.strip_at(strip)->0),
        MixCommand::SetFxParams { fx, .. } => {
            assert(next == (MixerView { fx: next.fx, ..s }));
        },
        MixCommand::SetFxReturn { fx, .. } => {
            assert(next == (MixerView { fx: next.fx, ..s }));
        },
        MixCommand::SetRecordArmAll { .. } => {
            assert(next == (MixerView { strips: next.strips, ..s }));
        },
        MixCommand::SetInstrumentPerformance { .. } => {
            assert(next == (MixerView { instruments: next.instruments, ..s }));
        },
        MixCommand::SetOutputTap { .. } => {
            assert(next == (MixerView { outputs: next.outputs, ..s }));
        },
        _ => {},
    }
}

proof fn lemma_strip_desk(s: MixerView, next: MixerView, i: int)
    requires
        0 <= i < s.strips.len(),
        next == (MixerView { strips: s.strips.update(i, next.strips[i]), ..s }),
        next.strips[i].id == s.strips[i].id,
        next.strips[i].input == s.strips[i].input,
        next.strips[i].route_to == s.strips[i].route_to,
    ensures
        same_desk(s, next),
{
}

proof fn lemma_target_desk(
    s: MixerView,
    next: MixerView,
    target: crate::console::command::FaderTarget,
)
    requires
        match target {
            crate::console::command::FaderTarget::Strip { id } => {
                let i = s.strip_at(id)->0;
                &&& 0 <= i < s.strips.len()
                &&& next == (MixerView { strips: s.strips.update(i, next.strips[i]), ..s })
                &&& next.strips[i].id == s.strips[i].id
                &&& next.strips[i].input == s.strips[i].input
                &&& next.strips[i].route_to == s.strips[i].route_to
            },
            crate::console::command::FaderTarget::Bus { id } => {
                let i = s.bus_at(id)->0;
                &&& 0 <= i < s.buses.len()
                &&& next == (MixerView { buses: s.buses.update(i, next.buses[i]), ..s })
                &&& next.buses[i].id == s.buses[i].id
                &&& next.buses[i].kind == s.buses[i].kind
            },
            crate::console::command::FaderTarget::Master => next == (MixerView {
                master: next.master,
                ..s
            }),
        },
    ensures
        same_desk(s, next),
{
    match target {
        crate::console::command::FaderTarget::Strip { id } => {
            lemma_strip_desk(s, next, s.strip_at(id)->0);
        },
        _ => {},
    }
}

} // verus!
