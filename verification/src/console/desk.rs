//! What comes onto the desk, what leaves it, and what it refuses.

use vstd::prelude::*;
use vstd::utf8::encode_utf8;

use crate::console::bus::BusKind;
use crate::console::bus::BusView;
use crate::console::change::change;
use crate::console::change::channel_patch;
use crate::console::change::channel_strip;
use crate::console::change::desk_with;
use crate::console::change::fed_by;
use crate::console::change::fed_jacks;
use crate::console::change::first_split_fault;
use crate::console::change::need;
use crate::console::change::numbers_fit;
use crate::console::change::on_the_desk;
use crate::console::change::other_bus;
use crate::console::change::other_dest;
use crate::console::change::other_instrument;
use crate::console::change::other_jack;
use crate::console::change::other_source;
use crate::console::change::other_strip;
use crate::console::change::plays;
use crate::console::change::split_fault;
use crate::console::command::DeltaView;
use crate::console::command::ErrorView;
use crate::console::command::FaderTarget;
use crate::console::command::MixCommand;
use crate::console::command::ReconcileNeed;
use crate::console::eq::EqBand;
use crate::console::eq::EqBandKind;
use crate::console::fx::FxParams;
use crate::console::id::BusId;
use crate::console::id::FxId;
use crate::console::id::InstrumentId;
use crate::console::id::StripId;
use crate::console::instrument::InstrumentSplit;
use crate::console::instrument::InstrumentView;
use crate::console::instrument::SplitView;
use crate::console::laws::lemma_desk_complete;
use crate::console::mix::bus_ids;
use crate::console::mix::bus_numbers;
use crate::console::mix::fx_ids;
use crate::console::mix::instrument_ids;
use crate::console::mix::instrument_numbers;
use crate::console::mix::jacks;
use crate::console::mix::strip_ids;
use crate::console::mix::strip_numbers;
use crate::console::mix::MixerView;
use crate::console::output::JackView;
use crate::console::output::OutputJack;
use crate::console::output::OutputPatch;
use crate::console::output::OutputSource;
use crate::console::output::PatchView;
use crate::console::readback::bus_is;
use crate::console::readback::from_to;
use crate::console::readback::instrument_is;
use crate::console::readback::lemma_bus_is;
use crate::console::readback::lemma_instrument_is;
use crate::console::readback::lemma_patch_is;
use crate::console::readback::lemma_strip_is;
use crate::console::readback::only_bus;
use crate::console::readback::only_instrument;
use crate::console::readback::only_outputs;
use crate::console::readback::only_strip;
use crate::console::readback::patch_is;
use crate::console::readback::strip_is;
use crate::console::strip::InputAssign;
use crate::console::strip::InputView;
use crate::console::strip::RouteTarget;
use crate::console::strip::SendState;
use crate::console::strip::SendTap;
use crate::console::strip::StripView;
use crate::seqs::lemma_absent;
use crate::seqs::next_free;
use crate::seqs::next_free_is_unused;
use crate::seqs::views;
use crate::single::Single;
use crate::text::is_space;
use crate::text::lemma_trimmed;
use crate::text::numeral;
use crate::text::trimmed;

verus! {

/// A name goes on the tape as `kept`: without the white space around it, with
/// something left, in at most 60 bytes.
pub open spec fn goes_on_tape(name: Seq<char>, kept: Seq<char>) -> bool {
    &&& kept == trimmed(name)
    &&& kept.len() > 0
    &&& encode_utf8(kept).len() <= 60
}

/// Why a name does not go on the tape.
pub open spec fn off_the_tape(name: Seq<char>, e: ErrorView) -> bool {
    if trimmed(name).len() == 0 {
        e == ErrorView::BadName("must not be empty"@)
    } else {
        encode_utf8(trimmed(name)).len() > 60 && e == ErrorView::BadName("too long for the tape"@)
    }
}

/// A strip is renamed where the name goes on the tape, and nothing else changes.
pub proof fn a_strip_name_reads_back(s: MixerView, i: int, id: StripId, name: String)
    requires
        strip_is(s, id, i),
    ensures
        match change(s, MixCommand::Rename { target: FaderTarget::Strip { id }, name }) {
            Ok((next, delta)) => {
                &&& goes_on_tape(name@, next.strips[i].name)
                &&& only_strip(s, next, i)
                &&& next.strips[i] == (StripView { name: next.strips[i].name, ..s.strips[i] })
                &&& delta == (DeltaView::Renamed {
                    target: FaderTarget::Strip { id },
                    name: next.strips[i].name,
                })
            },
            Err(e) => off_the_tape(name@, e),
        },
{
    lemma_strip_is(s, id, i);
}

/// A bus is renamed where the name goes on the tape, and nothing else changes.
pub proof fn a_bus_name_reads_back(s: MixerView, i: int, id: BusId, name: String)
    requires
        bus_is(s, id, i),
    ensures
        match change(s, MixCommand::Rename { target: FaderTarget::Bus { id }, name }) {
            Ok((next, delta)) => {
                &&& goes_on_tape(name@, next.buses[i].name)
                &&& only_bus(s, next, i)
                &&& next.buses[i] == (BusView { name: next.buses[i].name, ..s.buses[i] })
                &&& delta == (DeltaView::Renamed {
                    target: FaderTarget::Bus { id },
                    name: next.buses[i].name,
                })
            },
            Err(e) => off_the_tape(name@, e),
        },
{
    lemma_bus_is(s, id, i);
}

/// The master has no tape to write on.
pub proof fn the_master_keeps_its_name(s: MixerView, name: String)
    ensures
        change(s, MixCommand::Rename { target: FaderTarget::Master, name }) matches Err(e)
            && if trimmed(name@).len() > 0 && encode_utf8(trimmed(name@)).len() <= 60 {
            e == ErrorView::Unsupported("master has no tape"@)
        } else {
            off_the_tape(name@, e)
        },
{
}

/// A flat band at a frequency: no gain, a Q of 0.71.
pub open spec fn flat(band: EqBand, kind: EqBandKind, freq_hz: u32) -> bool {
    &&& band.kind == kind
    &&& band.freq_hz.bits == freq_hz
    &&& band.gain_db.bits == 0
    &&& band.q.bits == 0x3F35_C28F
}

/// A strip as it comes: fader down, everything else at zero or off, routed to the
/// master, the equaliser flat at 80 Hz, 800 Hz and 12 kHz.
pub open spec fn comes_fresh(strip: StripView) -> bool {
    &&& strip.gain_db.bits == 0
    &&& strip.pan.bits == 0
    &&& strip.fader_db.bits == 0xC2B4_0000
    &&& !strip.eq.enabled
    &&& flat(strip.eq.low, EqBandKind::LowShelf, 0x42A0_0000)
    &&& flat(strip.eq.mid, EqBandKind::Peak, 0x4448_0000)
    &&& flat(strip.eq.high, EqBandKind::HighShelf, 0x463B_8000)
    &&& strip.sends.len() == 0
    &&& !strip.mute
    &&& !strip.pfl
    &&& !strip.record_arm
    &&& strip.route_to == RouteTarget::Master
}

/// A new strip goes behind the others, fresh and without an input, under the first
/// number past every strip there is and every one there was. It is called as asked,
/// or after its number. The desk takes 32.
pub proof fn a_new_strip_goes_behind_the_others(s: MixerView, name: Option<String>)
    requires
        numbers_fit(s, MixCommand::AddStrip { name }),
    ensures
        match change(s, MixCommand::AddStrip { name }) {
            Ok((next, delta)) => {
                let strip = next.strips.last();
                &&& s.strips.len() < 32
                &&& next == (MixerView { strips: s.strips.push(strip), ..s })
                &&& delta == (DeltaView::StripAdded { strip })
                &&& comes_fresh(strip)
                &&& strip.input is None
                &&& s.strip_mark <= strip.id.0
                &&& forall|j: int|
                    0 <= j < s.strips.len() ==> (#[trigger] s.strips[j]).id.0 < strip.id.0
                &&& strip.id.0 == s.strip_mark || exists|j: int|
                    0 <= j < s.strips.len() && (#[trigger] s.strips[j]).id.0 + 1 == strip.id.0
                &&& match name {
                    Some(given) => goes_on_tape(given@, strip.name),
                    None => strip.name == "Ch "@ + numeral((strip.id.0 + 1) as nat),
                }
            },
            Err(e) => if s.strips.len() >= 32 {
                e == ErrorView::Unsupported("the console is full"@)
            } else {
                name matches Some(given) && off_the_tape(given@, e)
            },
        },
{
    let numbers = strip_numbers(s.strips);
    next_free_is_unused(numbers);
    assert forall|j: int| 0 <= j < s.strips.len() implies (#[trigger] s.strips[j]).id.0
        < s.next_strip() by {
        assert(numbers[j] == s.strips[j].id.0);
    }
    if s.strip_mark != s.next_strip() {
        let j = choose|j: int|
            0 <= j < numbers.len() && (#[trigger] numbers[j]) + 1 == next_free(numbers);
        assert(s.strips[j].id.0 + 1 == s.next_strip());
    }
}

/// A new bus goes behind the others, with its fader at 0 dB and everything else at
/// zero or off, under the first number past every bus there is. It is called as
/// asked, or after its kind and number.
pub proof fn a_new_bus_goes_behind_the_others(s: MixerView, kind: BusKind, name: Option<String>)
    requires
        numbers_fit(s, MixCommand::AddBus { kind, name }),
    ensures
        match change(s, MixCommand::AddBus { kind, name }) {
            Ok((next, delta)) => {
                let bus = next.buses.last();
                &&& next == (MixerView { buses: s.buses.push(bus), ..s })
                &&& delta == (DeltaView::BusAdded { bus })
                &&& bus.kind == kind
                &&& bus.fader_db.bits == 0
                &&& bus.pan.bits == 0
                &&& !bus.mute
                &&& !bus.pfl
                &&& forall|j: int|
                    0 <= j < s.buses.len() ==> (#[trigger] s.buses[j]).id.0 < bus.id.0
                &&& s.buses.len() == 0 ==> bus.id.0 == 0
                &&& s.buses.len() > 0 ==> exists|j: int|
                    0 <= j < s.buses.len() && (#[trigger] s.buses[j]).id.0 + 1 == bus.id.0
                &&& match name {
                    Some(given) => goes_on_tape(given@, bus.name),
                    None => bus.name == (if kind == BusKind::Group {
                        "Group "@
                    } else {
                        "Aux "@
                    }) + numeral((bus.id.0 + 1) as nat),
                }
            },
            Err(e) => name matches Some(given) && off_the_tape(given@, e),
        },
{
    let numbers = bus_numbers(s.buses);
    next_free_is_unused(numbers);
    assert forall|j: int| 0 <= j < s.buses.len() implies (#[trigger] s.buses[j]).id.0
        < next_free(numbers) by {
        assert(numbers[j] == s.buses[j].id.0);
    }
    if s.buses.len() > 0 {
        let j = choose|j: int|
            0 <= j < numbers.len() && (#[trigger] numbers[j]) + 1 == next_free(numbers);
        assert(s.buses[j].id.0 + 1 == next_free(numbers));
    }
}

/// A new instrument goes behind the others: no SoundFont, bound to nothing, bank and
/// program 0, 32 voices, effects off, no splits, under the first number past every
/// instrument there is and every one there was. The rack takes 8.
pub proof fn a_new_instrument_goes_behind_the_others(s: MixerView, name: Option<String>)
    requires
        numbers_fit(s, MixCommand::AddInstrument { name }),
    ensures
        match change(s, MixCommand::AddInstrument { name }) {
            Ok((next, delta)) => {
                let added = next.instruments.last();
                &&& s.instruments.len() < 8
                &&& next == (MixerView { instruments: s.instruments.push(added), ..s })
                &&& delta == (DeltaView::InstrumentAdded { instrument: added })
                &&& added.soundfont is None
                &&& added.port is None
                &&& added.midi_channel is None
                &&& added.bank == 0
                &&& added.program == 0
                &&& added.polyphony == 32
                &&& !added.effects
                &&& added.splits.len() == 0
                &&& s.instrument_mark <= added.id.0
                &&& forall|j: int|
                    0 <= j < s.instruments.len() ==> (#[trigger] s.instruments[j]).id.0
                        < added.id.0
                &&& added.id.0 == s.instrument_mark || exists|j: int|
                    0 <= j < s.instruments.len() && (#[trigger] s.instruments[j]).id.0 + 1
                        == added.id.0
                &&& match name {
                    Some(given) => goes_on_tape(given@, added.name),
                    None => added.name == "Inst "@ + numeral(s.instruments.len() + 1),
                }
            },
            Err(e) => if s.instruments.len() >= 8 {
                e == ErrorView::Unsupported("the instrument rack is full"@)
            } else {
                name matches Some(given) && off_the_tape(given@, e)
            },
        },
{
    let numbers = instrument_numbers(s.instruments);
    next_free_is_unused(numbers);
    assert forall|j: int| 0 <= j < s.instruments.len() implies (#[trigger] s.instruments[j]).id.0
        < s.next_instrument() by {
        assert(numbers[j] == s.instruments[j].id.0);
    }
    if s.instrument_mark != s.next_instrument() {
        let j = choose|j: int|
            0 <= j < numbers.len() && (#[trigger] numbers[j]) + 1 == next_free(numbers);
        assert(s.instruments[j].id.0 + 1 == s.next_instrument());
    }
}

/// The jacks of the patches that a source feeds, in patch order.
pub open spec fn jacks_of(outputs: Seq<PatchView>, source: OutputSource) -> Seq<JackView> {
    outputs.filter(|patch: PatchView| patch.source == source).map_values(
        |patch: PatchView| JackView { device: patch.device, channel: patch.channel },
    )
}

proof fn lemma_jacks_of(outputs: Seq<PatchView>, source: OutputSource)
    ensures
        fed_jacks(outputs, source) == jacks_of(outputs, source),
{
    assert(fed_by(source) =~= (|patch: PatchView| patch.source == source));
    assert(fed_jacks(outputs, source) =~= jacks_of(outputs, source));
}

/// A strip that is removed leaves with the patches it feeds, whose jacks are
/// reported, and its number is spent. The others stay, in their order.
pub proof fn a_removed_strip_takes_its_patches(s: MixerView, i: int, id: StripId)
    requires
        strip_is(s, id, i),
    ensures
        change(s, MixCommand::RemoveStrip { id }) matches Ok((next, delta)) && {
            &&& next.strips == s.strips.filter(|strip: StripView| strip.id != id)
            &&& next.outputs == s.outputs.filter(
                |patch: PatchView| patch.source != (OutputSource::Strip { id }),
            )
            &&& next.strip_mark > id.0
            &&& next.strip_mark == s.strip_mark || next.strip_mark == id.0 + 1
            &&& next.strip_mark >= s.strip_mark
            &&& next.buses == s.buses
            &&& next.fx == s.fx
            &&& next.instruments == s.instruments
            &&& next.master == s.master
            &&& next.instrument_mark == s.instrument_mark
            &&& delta == (DeltaView::StripRemoved {
                id,
                unpatched_outputs: jacks_of(s.outputs, OutputSource::Strip { id }),
            })
        },
{
    lemma_strip_is(s, id, i);
    lemma_jacks_of(s.outputs, OutputSource::Strip { id });
    assert(other_strip(id) =~= (|strip: StripView| strip.id != id));
    assert(other_source(OutputSource::Strip { id }) =~= (|patch: PatchView|
        patch.source != (OutputSource::Strip { id })));
}

/// A bus that feeds no effects unit can be removed. The strips that went there go to
/// the master, the sends toward it are gone, and so are its patches, whose jacks are
/// reported.
pub proof fn a_removed_bus_takes_its_sends(s: MixerView, i: int, id: BusId)
    requires
        bus_is(s, id, i),
    ensures
        match change(s, MixCommand::RemoveBus { id }) {
            Ok((next, delta)) => {
                &&& forall|k: int| 0 <= k < s.fx.len() ==> (#[trigger] s.fx[k]).input != id
                &&& next.buses == s.buses.filter(|bus: BusView| bus.id != id)
                &&& next.outputs == s.outputs.filter(
                    |patch: PatchView| patch.source != (OutputSource::Bus { id }),
                )
                &&& next.strips.len() == s.strips.len()
                &&& forall|k: int|
                    0 <= k < s.strips.len() ==> {
                        let before = s.strips[k];
                        let after = #[trigger] next.strips[k];
                        &&& after == (StripView {
                            route_to: after.route_to,
                            sends: after.sends,
                            ..before
                        })
                        &&& before.route_to == (RouteTarget::Bus { id }) ==> after.route_to
                            == RouteTarget::Master
                        &&& before.route_to != (RouteTarget::Bus { id }) ==> after.route_to
                            == before.route_to
                        &&& after.sends == before.sends.filter(|send: SendState| send.dest != id)
                    }
                &&& next.fx == s.fx
                &&& next.instruments == s.instruments
                &&& next.master == s.master
                &&& next.strip_mark == s.strip_mark
                &&& next.instrument_mark == s.instrument_mark
                &&& delta == (DeltaView::BusRemoved {
                    id,
                    unpatched_outputs: jacks_of(s.outputs, OutputSource::Bus { id }),
                })
            },
            Err(e) => {
                &&& exists|k: int| 0 <= k < s.fx.len() && (#[trigger] s.fx[k]).input == id
                &&& e == ErrorView::Unsupported("bus feeds an FX unit"@)
            },
        },
{
    lemma_bus_is(s, id, i);
    lemma_jacks_of(s.outputs, OutputSource::Bus { id });
    assert(other_bus(id) =~= (|bus: BusView| bus.id != id));
    assert(other_dest(id) =~= (|send: SendState| send.dest != id));
    assert(other_source(OutputSource::Bus { id }) =~= (|patch: PatchView|
        patch.source != (OutputSource::Bus { id })));
}

/// The strip plays a channel of that instrument.
pub open spec fn hears_instrument(strip: StripView, id: InstrumentId) -> bool {
    strip.input matches Some(InputView::Instrument { instrument, .. }) && instrument == id
}

/// An instrument that is removed leaves the strips that played it without an input,
/// and they are reported. Its number is spent.
pub proof fn a_removed_instrument_is_unpatched(s: MixerView, i: int, id: InstrumentId)
    requires
        instrument_is(s, id, i),
    ensures
        change(s, MixCommand::RemoveInstrument { id }) matches Ok((next, delta)) && {
            &&& next.instruments == s.instruments.filter(|unit: InstrumentView| unit.id != id)
            &&& next.strips.len() == s.strips.len()
            &&& forall|k: int|
                0 <= k < s.strips.len() ==> #[trigger] next.strips[k] == if hears_instrument(
                    s.strips[k],
                    id,
                ) {
                    StripView { input: None, ..s.strips[k] }
                } else {
                    s.strips[k]
                }
            &&& next.instrument_mark > id.0
            &&& next.instrument_mark == s.instrument_mark || next.instrument_mark == id.0 + 1
            &&& next.instrument_mark >= s.instrument_mark
            &&& next.buses == s.buses
            &&& next.fx == s.fx
            &&& next.outputs == s.outputs
            &&& next.master == s.master
            &&& next.strip_mark == s.strip_mark
            &&& delta == (DeltaView::InstrumentRemoved {
                id,
                unpatched: s.strips.filter(
                    |strip: StripView| hears_instrument(strip, id),
                ).map_values(|strip: StripView| strip.id),
            })
        },
{
    lemma_instrument_is(s, id, i);
    assert(other_instrument(id) =~= (|unit: InstrumentView| unit.id != id));
    assert(plays(id) =~= (|strip: StripView| hears_instrument(strip, id)));
}

/// An instrument's SoundFont, voices, from 4 to 256, and effects are as told.
pub proof fn a_voice_setting_reads_back(
    s: MixerView,
    i: int,
    id: InstrumentId,
    soundfont: Option<String>,
    polyphony: u16,
    effects: bool,
)
    requires
        instrument_is(s, id, i),
    ensures
        match change(s, MixCommand::SetInstrumentVoice { id, soundfont, polyphony, effects }) {
            Ok((next, delta)) => {
                &&& 4 <= polyphony <= 256
                &&& only_instrument(s, next, i)
                &&& next.instruments[i].soundfont == (match soundfont {
                    Some(name) => Some(name@),
                    None => None,
                })
                &&& next.instruments[i].polyphony == polyphony
                &&& next.instruments[i].effects == effects
                &&& next.instruments[i].id == id
                &&& next.instruments[i].name == s.instruments[i].name
                &&& next.instruments[i].bank == s.instruments[i].bank
                &&& next.instruments[i].program == s.instruments[i].program
                &&& next.instruments[i].port == s.instruments[i].port
                &&& next.instruments[i].midi_channel == s.instruments[i].midi_channel
                &&& next.instruments[i].splits == s.instruments[i].splits
                &&& delta == (DeltaView::InstrumentChanged { instrument: next.instruments[i] })
            },
            Err(e) => {
                &&& !(4 <= polyphony <= 256)
                &&& e matches ErrorView::OutOfRange { field, .. } && field == "polyphony"@
            },
        },
{
    lemma_instrument_is(s, id, i);
}

/// An instrument's name, bank, program, up to 127, port and channel, up to 15, are as
/// told.
pub proof fn a_performance_setting_reads_back(
    s: MixerView,
    i: int,
    id: InstrumentId,
    name: String,
    bank: u16,
    program: u8,
    port: Option<String>,
    midi_channel: Option<u8>,
)
    requires
        instrument_is(s, id, i),
    ensures
        match change(
            s,
            MixCommand::SetInstrumentPerformance { id, name, bank, program, port, midi_channel },
        ) {
            Ok((next, delta)) => {
                &&& goes_on_tape(name@, next.instruments[i].name)
                &&& program <= 127
                &&& midi_channel matches Some(channel) ==> channel <= 15
                &&& only_instrument(s, next, i)
                &&& next.instruments[i].bank == bank
                &&& next.instruments[i].program == program
                &&& next.instruments[i].port == (match port {
                    Some(port) => Some(port@),
                    None => None,
                })
                &&& next.instruments[i].midi_channel == midi_channel
                &&& next.instruments[i].id == id
                &&& next.instruments[i].soundfont == s.instruments[i].soundfont
                &&& next.instruments[i].polyphony == s.instruments[i].polyphony
                &&& next.instruments[i].effects == s.instruments[i].effects
                &&& next.instruments[i].splits == s.instruments[i].splits
                &&& delta == (DeltaView::InstrumentChanged { instrument: next.instruments[i] })
            },
            Err(e) => if !goes_on_tape(name@, trimmed(name@)) {
                off_the_tape(name@, e)
            } else if program > 127 {
                e matches ErrorView::OutOfRange { field, .. } && field == "program"@
            } else {
                &&& midi_channel matches Some(channel) && channel > 15
                &&& e matches ErrorView::OutOfRange { field, .. } && field == "midi_channel"@
            },
        },
{
    lemma_instrument_is(s, id, i);
}

/// A split has a name that goes on the tape and one range or more, each forward and
/// on the keyboard of 128 keys.
pub open spec fn split_plays(split: SplitView) -> bool {
    &&& goes_on_tape(split.name, trimmed(split.name))
    &&& split.ranges.len() > 0
    &&& forall|r: int|
        0 <= r < split.ranges.len() ==> (#[trigger] split.ranges[r]).0 <= split.ranges[r].1
            && split.ranges[r].1 <= 127
}

proof fn lemma_split_plays(split: SplitView)
    ensures
        split_plays(split) <==> split_fault(split) is None,
{
}

proof fn lemma_all_play(splits: Seq<SplitView>, from: int)
    requires
        0 <= from,
    ensures
        first_split_fault(splits, from) is None <==> forall|k: int|
            from <= k < splits.len() ==> split_plays(#[trigger] splits[k]),
    decreases splits.len() - from,
{
    if from < splits.len() {
        lemma_split_plays(splits[from]);
        lemma_all_play(splits, from + 1);
        if first_split_fault(splits, from) is None {
            assert forall|k: int| from <= k < splits.len() implies split_plays(
                #[trigger] splits[k],
            ) by {}
        } else if forall|k: int| from <= k < splits.len() ==> split_plays(#[trigger] splits[k]) {
            assert(split_plays(splits[from]));
            assert forall|k: int| from + 1 <= k < splits.len() implies split_plays(
                #[trigger] splits[k],
            ) by {}
        }
    }
}

/// The first split that does not play is the one that the refusal is about.
pub proof fn the_first_bad_split_is_reported(splits: Seq<SplitView>, k: int)
    requires
        0 <= k < splits.len(),
        forall|j: int| 0 <= j < k ==> split_plays(#[trigger] splits[j]),
        !split_plays(splits[k]),
    ensures
        first_split_fault(splits, 0) matches Some(e) && if !goes_on_tape(
            splits[k].name,
            trimmed(splits[k].name),
        ) {
            off_the_tape(splits[k].name, e)
        } else if splits[k].ranges.len() == 0 {
            e == ErrorView::BadName("a split needs at least one key range"@)
        } else {
            e == (ErrorView::OutOfRange { field: "key range"@, value: Single { bits: 0 } })
        },
{
    lemma_reported(splits, k, 0);
}

proof fn lemma_reported(splits: Seq<SplitView>, k: int, from: int)
    requires
        0 <= from <= k < splits.len(),
        forall|j: int| 0 <= j < k ==> split_plays(#[trigger] splits[j]),
        !split_plays(splits[k]),
    ensures
        first_split_fault(splits, from) == split_fault(splits[k]),
        split_fault(splits[k]) is Some,
    decreases k - from,
{
    lemma_split_plays(splits[k]);
    if from < k {
        assert(split_plays(splits[from]));
        lemma_split_plays(splits[from]);
        lemma_reported(splits, k, from + 1);
    }
}

/// An instrument takes splits that all play. A strip on a channel past its new width,
/// which is one channel per split or two where there is none, is left without an
/// input. Every other strip stays.
pub proof fn splits_read_back(
    s: MixerView,
    i: int,
    id: InstrumentId,
    splits: Vec<InstrumentSplit>,
)
    requires
        instrument_is(s, id, i),
    ensures
        ({
            let width = if splits@.len() == 0 {
                2
            } else {
                splits@.len()
            };
            match change(s, MixCommand::SetInstrumentSplits { id, splits }) {
                Ok((next, delta)) => {
                    &&& forall|k: int| 0 <= k < splits@.len() ==> split_plays(#[trigger] splits@[k]@)
                    &&& next.instruments.len() == s.instruments.len()
                    &&& forall|k: int|
                        0 <= k < s.instruments.len() && k != i ==> #[trigger] next.instruments[k]
                            == s.instruments[k]
                    &&& next.instruments[i] == (InstrumentView {
                        splits: next.instruments[i].splits,
                        ..s.instruments[i]
                    })
                    &&& next.instruments[i].splits.len() == splits@.len()
                    &&& forall|k: int|
                        0 <= k < splits@.len() ==> #[trigger] next.instruments[i].splits[k]
                            == splits@[k]@
                    &&& next.strips.len() == s.strips.len()
                    &&& forall|k: int|
                        0 <= k < s.strips.len() ==> #[trigger] next.strips[k] == if s.strips[k].input
                            matches Some(InputView::Instrument { instrument, channel })
                            && instrument == id && channel >= width {
                            StripView { input: None, ..s.strips[k] }
                        } else {
                            s.strips[k]
                        }
                    &&& next.buses == s.buses
                    &&& next.fx == s.fx
                    &&& next.outputs == s.outputs
                    &&& next.master == s.master
                    &&& next.strip_mark == s.strip_mark
                    &&& next.instrument_mark == s.instrument_mark
                    &&& delta == (DeltaView::InstrumentChanged {
                        instrument: next.instruments[i],
                    })
                },
                Err(e) => {
                    &&& exists|k: int|
                        0 <= k < splits@.len() && !split_plays(#[trigger] splits@[k]@)
                    &&& first_split_fault(views(splits@), 0) == Some(e)
                },
            }
        }),
{
    lemma_instrument_is(s, id, i);
    let given = views(splits@);
    lemma_all_play(given, 0);
    if first_split_fault(given, 0) is None {
        assert forall|k: int| 0 <= k < splits@.len() implies split_plays(
            #[trigger] splits@[k]@,
        ) by {
            assert(split_plays(given[k]));
        }
    } else {
        let k = choose|k: int| 0 <= k < given.len() && !split_plays(#[trigger] given[k]);
        assert(!split_plays(splits@[k]@));
    }
}

/// A channel of an instrument by its place.
pub open spec fn on_channel(strip: StripView, id: InstrumentId, channel: int) -> bool {
    strip.input matches Some(InputView::Instrument { instrument, channel: at }) && instrument == id
        && at == channel
}

/// A strip is on that channel.
pub open spec fn has_channel(strips: Seq<StripView>, id: InstrumentId, channel: int) -> bool {
    exists|k: int| 0 <= k < strips.len() && on_channel(#[trigger] strips[k], id, channel)
}

/// What a channel of an instrument is called: the instrument's name with the side, or
/// with the name of the split.
pub open spec fn channel_name(unit: InstrumentView, channel: int) -> Seq<char> {
    if unit.splits.len() > 0 {
        unit.name + " "@ + unit.splits[channel].name
    } else if channel == 0 {
        unit.name + " L"@
    } else {
        unit.name + " R"@
    }
}

/// A fresh strip, called after a channel of the instrument that it is on and that no
/// strip before it was on.
pub open spec fn puts_on_the_desk(
    strip: StripView,
    before: Seq<StripView>,
    unit: InstrumentView,
    width: int,
) -> bool {
    exists|c: int|
        {
            &&& 0 <= c < width
            &&& #[trigger] on_channel(strip, unit.id, c)
            &&& comes_fresh(strip)
            &&& goes_on_tape(channel_name(unit, c), strip.name)
            &&& !has_channel(before, unit.id, c)
        }
}

proof fn lemma_added(
    mark: u64,
    strips: Seq<StripView>,
    id: InstrumentId,
    names: Seq<Seq<char>>,
    channel: int,
    k: int,
)
    requires
        desk_with(mark, strips, id, names, channel) is Ok,
        0 <= channel,
        names.len() <= 0x1_0000,
        strips.len() <= k < desk_with(mark, strips, id, names, channel)->Ok_0.len(),
    ensures
        ({
            let strip = desk_with(mark, strips, id, names, channel)->Ok_0[k];
            exists|c: int|
                #![trigger names[c]]
                {
                    &&& channel <= c < names.len()
                    &&& on_channel(strip, id, c)
                    &&& comes_fresh(strip)
                    &&& goes_on_tape(names[c], strip.name)
                    &&& forall|j: int| 0 <= j < strips.len() ==> !on_channel(#[trigger] strips[j], id, c)
                }
        }),
    decreases names.len() - channel,
{
    let desk = desk_with(mark, strips, id, names, channel)->Ok_0;
    if channel < names.len() {
        if on_the_desk(strips, channel_patch(id, channel)) {
            lemma_added(mark, strips, id, names, channel + 1, k);
        } else {
            let name = trimmed(names[channel]);
            let strip = channel_strip(mark, strips, id, channel, name);
            let more = strips.push(strip);
            lemma_desk_complete(mark, more, id, names, channel + 1);
            if k == strips.len() {
                assert(desk.take(more.len() as int)[k] == more[k]);
                assert(desk[k] == strip);
                assert(on_channel(strip, id, channel));
                assert(goes_on_tape(names[channel], strip.name));
                assert forall|j: int| 0 <= j < strips.len() implies !on_channel(
                    #[trigger] strips[j],
                    id,
                    channel,
                ) by {
                    if on_channel(strips[j], id, channel) {
                        assert(strips[j].input == Some(channel_patch(id, channel)));
                    }
                }
            } else {
                lemma_added(mark, more, id, names, channel + 1, k);
                let c = choose|c: int|
                    #![trigger names[c]]
                    {
                        &&& channel + 1 <= c < names.len()
                        &&& on_channel(desk[k], id, c)
                        &&& comes_fresh(desk[k])
                        &&& goes_on_tape(names[c], desk[k].name)
                        &&& forall|j: int|
                            0 <= j < more.len() ==> !on_channel(#[trigger] more[j], id, c)
                    };
                assert forall|j: int| 0 <= j < strips.len() implies !on_channel(
                    #[trigger] strips[j],
                    id,
                    c,
                ) by {
                    assert(more[j] == strips[j]);
                }
                assert(channel <= c < names.len() && goes_on_tape(names[c], desk[k].name));
            }
        }
    }
}

/// Putting an instrument on the desk leaves the strips there are and adds fresh ones
/// behind them, one for every channel that had none, called after the channel. Then
/// every channel of the instrument is on the desk, and no channel twice where it was
/// not before.
pub proof fn an_instrument_comes_onto_the_desk(s: MixerView, i: int, id: InstrumentId)
    requires
        instrument_is(s, id, i),
        s.instruments[i].splits.len() <= 0x1_0000,
    ensures
        change(s, MixCommand::AddInstrumentStrips { id }) matches Ok((next, delta)) ==> {
            let unit = s.instruments[i];
            let width = if unit.splits.len() == 0 {
                2
            } else {
                unit.splits.len()
            };
            &&& next == (MixerView { strips: next.strips, ..s })
            &&& next.strips.len() >= s.strips.len()
            &&& forall|k: int|
                0 <= k < s.strips.len() ==> #[trigger] next.strips[k] == s.strips[k]
            &&& forall|c: int| 0 <= c < width ==> #[trigger] has_channel(next.strips, id, c)
            &&& forall|k: int|
                s.strips.len() <= k < next.strips.len() ==> puts_on_the_desk(
                    #[trigger] next.strips[k],
                    s.strips,
                    unit,
                    width as int,
                )
            &&& delta == (DeltaView::InstrumentStripsAdded {
                id,
                added: next.strips.skip(s.strips.len() as int),
            })
        },
{
    lemma_instrument_is(s, id, i);
    let unit = s.instruments[i];
    let names = unit.names();
    let desk = desk_with(s.strip_mark, s.strips, id, names, 0);
    if desk is Ok {
        let strips = desk->Ok_0;
        lemma_desk_complete(s.strip_mark, s.strips, id, names, 0);
        assert forall|k: int| 0 <= k < s.strips.len() implies #[trigger] strips[k]
            == s.strips[k] by {
            assert(strips.take(s.strips.len() as int)[k] == strips[k]);
        }
        assert forall|c: int| 0 <= c < names.len() implies #[trigger] has_channel(
            strips,
            id,
            c,
        ) by {
            assert(on_the_desk(strips, channel_patch(id, c)));
            let k = choose|k: int|
                0 <= k < strips.len() && (#[trigger] strips[k]).input == Some(
                    channel_patch(id, c),
                );
            assert(on_channel(strips[k], id, c));
        }
        assert forall|k: int| s.strips.len() <= k < strips.len() implies puts_on_the_desk(
            #[trigger] strips[k],
            s.strips,
            unit,
            names.len() as int,
        ) by {
            lemma_added(s.strip_mark, s.strips, id, names, 0, k);
            let c = choose|c: int|
                #![trigger names[c]]
                {
                    &&& 0 <= c < names.len()
                    &&& on_channel(strips[k], id, c)
                    &&& comes_fresh(strips[k])
                    &&& goes_on_tape(names[c], strips[k].name)
                    &&& forall|j: int|
                        0 <= j < s.strips.len() ==> !on_channel(#[trigger] s.strips[j], id, c)
                };
            assert(names[c] == channel_name(unit, c));
            assert(on_channel(strips[k], id, c));
        }
    }
}

/// A patch on a jack that has one takes its place, and nothing else changes.
pub proof fn a_patch_takes_the_place_of_another(s: MixerView, i: int, patch: OutputPatch)
    requires
        patch_is(s, JackView { device: patch@.device, channel: patch@.channel }, i),
    ensures
        change(s, MixCommand::SetOutputPatch { patch }) matches Ok((next, delta)) ==> {
            &&& only_outputs(s, next)
            &&& next.outputs.len() == s.outputs.len()
            &&& next.outputs[i] == patch@
            &&& forall|j: int|
                0 <= j < s.outputs.len() && j != i ==> #[trigger] next.outputs[j] == s.outputs[j]
            &&& delta == (DeltaView::OutputPatched { patch: patch@ })
        },
{
    lemma_patch_is(s, JackView { device: patch@.device, channel: patch@.channel }, i);
}

proof fn lemma_no_patch(s: MixerView, jack: JackView)
    requires
        forall|j: int|
            0 <= j < s.outputs.len() ==> (#[trigger] s.outputs[j]).device != jack.device
                || s.outputs[j].channel != jack.channel,
    ensures
        s.output_at(jack) is None,
{
    let keys = jacks(s.outputs);
    assert forall|j: int| 0 <= j < keys.len() implies keys[j] != jack by {
        assert(keys[j].device == s.outputs[j].device);
    }
    lemma_absent(keys, jack);
}

/// A patch on a free jack goes behind the others, as long as there are fewer than 64.
pub proof fn a_patch_on_a_free_jack(s: MixerView, patch: OutputPatch)
    requires
        forall|j: int|
            0 <= j < s.outputs.len() ==> (#[trigger] s.outputs[j]).device != patch@.device
                || s.outputs[j].channel != patch@.channel,
    ensures
        match change(s, MixCommand::SetOutputPatch { patch }) {
            Ok((next, delta)) => {
                &&& s.outputs.len() < 64
                &&& only_outputs(s, next)
                &&& next.outputs == s.outputs.push(patch@)
                &&& delta == (DeltaView::OutputPatched { patch: patch@ })
            },
            Err(e) => e == ErrorView::Unsupported("the output patch bay is full"@)
                ==> s.outputs.len() >= 64,
        },
{
    lemma_no_patch(s, JackView { device: patch@.device, channel: patch@.channel });
}

/// A patch is taken where its source is on the desk and has the channel that it
/// names, a strip and an aux bus one, a group and the master two, and its jack has a
/// patch or the bay has room. A channel that the source does not have is named in the
/// refusal.
pub proof fn a_patch_needs_its_source(s: MixerView, patch: OutputPatch, node: int, k: int)
    requires
        s.outputs.len() < 64 || patch_is(
            s,
            JackView { device: patch@.device, channel: patch@.channel },
            k,
        ),
    ensures
        change(s, MixCommand::SetOutputPatch { patch }) matches Err(e) ==> e is UnknownTarget || (
        e matches ErrorView::OutOfRange { field, .. } && field == "source_channel"@),
        ({
            let outcome = change(s, MixCommand::SetOutputPatch { patch });
            &&& patch@.source == OutputSource::Master ==> (outcome is Ok
                <==> patch@.source_channel < 2)
            &&& patch@.source matches OutputSource::Strip { id } ==> {
                &&& strip_is(s, id, node) ==> (outcome is Ok <==> patch@.source_channel < 1)
                &&& (forall|j: int| 0 <= j < s.strips.len() ==> (#[trigger] s.strips[j]).id != id)
                    ==> (outcome matches Err(e) && e == ErrorView::UnknownTarget(
                    "strip#"@ + numeral(id.0 as nat),
                ))
            }
            &&& patch@.source matches OutputSource::Bus { id } ==> {
                &&& bus_is(s, id, node) ==> (outcome is Ok <==> patch@.source_channel < if s.buses[
                    node].kind == BusKind::Group {
                    2int
                } else {
                    1int
                })
                &&& (forall|j: int| 0 <= j < s.buses.len() ==> (#[trigger] s.buses[j]).id != id)
                    ==> (outcome matches Err(e) && e == ErrorView::UnknownTarget(
                    "bus#"@ + numeral(id.0 as nat),
                ))
            }
        }),
{
    let jack = JackView { device: patch@.device, channel: patch@.channel };
    if patch_is(s, jack, k) {
        lemma_patch_is(s, jack, k);
    }
    match patch@.source {
        OutputSource::Strip { id } => {
            if strip_is(s, id, node) {
                lemma_strip_is(s, id, node);
            }
            if forall|j: int| 0 <= j < s.strips.len() ==> (#[trigger] s.strips[j]).id != id {
                lemma_absent(strip_ids(s.strips), id);
            }
        },
        OutputSource::Bus { id } => {
            if bus_is(s, id, node) {
                lemma_bus_is(s, id, node);
            }
            if forall|j: int| 0 <= j < s.buses.len() ==> (#[trigger] s.buses[j]).id != id {
                lemma_absent(bus_ids(s.buses), id);
            }
        },
        OutputSource::Master => {},
    }
}

/// A patch that is cleared leaves its jack free, and the others stay, in their order.
pub proof fn a_cleared_patch_is_gone(s: MixerView, i: int, jack: OutputJack)
    requires
        patch_is(s, jack@, i),
    ensures
        change(s, MixCommand::ClearOutputPatch { jack }) matches Ok((next, delta)) && {
            &&& only_outputs(s, next)
            &&& next.outputs == s.outputs.filter(
                |patch: PatchView| patch.device != jack@.device || patch.channel != jack@.channel,
            )
            &&& delta == (DeltaView::OutputUnpatched { jack: jack@ })
        },
{
    lemma_patch_is(s, jack@, i);
    let kept = |patch: PatchView| patch.device != jack@.device || patch.channel != jack@.channel;
    assert forall|patch: PatchView| #[trigger] other_jack(jack@)(patch) == kept(patch) by {
        assert(patch.jack_of() == jack@ <==> patch.jack_of() =~= jack@);
    }
    assert(other_jack(jack@) =~= kept);
}

/// A tap that is set reads back on the one patch.
pub proof fn an_output_tap_reads_back(s: MixerView, i: int, jack: OutputJack, tap: SendTap)
    requires
        patch_is(s, jack@, i),
    ensures
        change(s, MixCommand::SetOutputTap { jack, tap }) matches Ok((next, delta)) && {
            &&& only_outputs(s, next)
            &&& next.outputs.len() == s.outputs.len()
            &&& next.outputs[i].tap == tap
            &&& next.outputs[i].device == s.outputs[i].device
            &&& next.outputs[i].channel == s.outputs[i].channel
            &&& next.outputs[i].source == s.outputs[i].source
            &&& next.outputs[i].source_channel == s.outputs[i].source_channel
            &&& forall|j: int|
                0 <= j < s.outputs.len() && j != i ==> #[trigger] next.outputs[j] == s.outputs[j]
            &&& delta == (DeltaView::OutputTap { jack: jack@, tap })
        },
{
    lemma_patch_is(s, jack@, i);
}

/// A jack without a patch is refused by its name: the device, if it is named, and the
/// channel, counted from one.
pub proof fn an_empty_jack_is_unknown(s: MixerView, jack: OutputJack, tap: SendTap)
    requires
        forall|j: int|
            0 <= j < s.outputs.len() ==> (#[trigger] s.outputs[j]).device != jack@.device
                || s.outputs[j].channel != jack@.channel,
    ensures
        ({
            let name = (match jack@.device {
                Some(device) => device + " "@,
                None => Seq::empty(),
            }) + "out "@ + numeral((jack@.channel + 1) as nat);
            &&& change(s, MixCommand::ClearOutputPatch { jack }) matches Err(e) && e
                == ErrorView::UnknownTarget(name)
            &&& change(s, MixCommand::SetOutputTap { jack, tap }) matches Err(e) && e
                == ErrorView::UnknownTarget(name)
        }),
{
    lemma_no_patch(s, jack@);
    let digits = numeral((jack@.channel + 1) as nat);
    reveal_strlit(" ");
    reveal_strlit("out ");
    reveal_strlit(" out ");
    match jack@.device {
        Some(device) => {
            assert(device + " out "@ + digits =~= device + " "@ + "out "@ + digits);
        },
        None => {
            assert("out "@ + digits =~= Seq::<char>::empty() + "out "@ + digits);
        },
    }
}

/// A strip that is not on the desk is refused by its name, whatever it was to do.
pub proof fn a_missing_strip_is_unknown(
    s: MixerView,
    id: StripId,
    on: bool,
    input: Option<InputAssign>,
)
    requires
        forall|j: int| 0 <= j < s.strips.len() ==> (#[trigger] s.strips[j]).id != id,
    ensures
        ({
            let unknown = Err::<(MixerView, DeltaView), ErrorView>(
                ErrorView::UnknownTarget("strip#"@ + numeral(id.0 as nat)),
            );
            let target = FaderTarget::Strip { id };
            let zero = Single { bits: 0 };
            &&& change(s, MixCommand::SetFader { target, level_db: zero }) == unknown
            &&& change(s, MixCommand::SetGain { strip: id, gain_db: zero }) == unknown
            &&& change(s, MixCommand::SetEqEnabled { strip: id, enabled: on }) == unknown
            &&& change(s, MixCommand::SetPan { strip: id, pan: zero }) == unknown
            &&& change(s, MixCommand::SetMute { target, mute: on }) == unknown
            &&& change(s, MixCommand::SetPfl { target, on }) == unknown
            &&& change(s, MixCommand::SetInput { strip: id, input }) == unknown
            &&& change(s, MixCommand::RemoveStrip { id }) == unknown
            &&& change(s, MixCommand::SetRecordArm { target, armed: on }) == unknown
            &&& change(s, MixCommand::SetRoute { strip: id, to: RouteTarget::Master }) == unknown
        }),
{
    lemma_absent(strip_ids(s.strips), id);
}

/// A bus that is not on the desk is refused by its name.
pub proof fn a_missing_bus_is_unknown(
    s: MixerView,
    id: BusId,
    strip: StripId,
    on: bool,
    tap: SendTap,
)
    requires
        forall|j: int| 0 <= j < s.buses.len() ==> (#[trigger] s.buses[j]).id != id,
    ensures
        ({
            let unknown = Err::<(MixerView, DeltaView), ErrorView>(
                ErrorView::UnknownTarget("bus#"@ + numeral(id.0 as nat)),
            );
            let target = FaderTarget::Bus { id };
            let zero = Single { bits: 0 };
            &&& change(s, MixCommand::SetFader { target, level_db: zero }) == unknown
            &&& change(s, MixCommand::SetMute { target, mute: on }) == unknown
            &&& change(s, MixCommand::SetPfl { target, on }) == unknown
            &&& change(s, MixCommand::SetSend { strip, dest: id, level_db: zero, tap }) == unknown
            &&& change(s, MixCommand::SetRoute { strip, to: RouteTarget::Bus { id } }) == unknown
            &&& (forall|k: int| 0 <= k < s.fx.len() ==> (#[trigger] s.fx[k]).input != id)
                ==> change(s, MixCommand::RemoveBus { id }) == unknown
        }),
{
    lemma_absent(bus_ids(s.buses), id);
}

/// An effects unit, and an instrument, that is not there is refused by its name.
pub proof fn a_missing_unit_is_unknown(
    s: MixerView,
    fx: FxId,
    id: InstrumentId,
    soundfont: Option<String>,
)
    ensures
        (forall|j: int| 0 <= j < s.fx.len() ==> (#[trigger] s.fx[j]).id != fx) ==> {
            let unknown = Err::<(MixerView, DeltaView), ErrorView>(
                ErrorView::UnknownTarget("fx#"@ + numeral(fx.0 as nat)),
            );
            let zero = Single { bits: 0 };
            &&& change(s, MixCommand::SetFxReturn { fx, level_db: zero }) == unknown
            &&& change(
                s,
                MixCommand::SetFxParams {
                    fx,
                    params: FxParams::Reverb { room_size: zero, damping: zero },
                },
            ) == unknown
        },
        (forall|j: int| 0 <= j < s.instruments.len() ==> (#[trigger] s.instruments[j]).id != id)
            ==> {
            let unknown = Err::<(MixerView, DeltaView), ErrorView>(
                ErrorView::UnknownTarget("instrument#"@ + numeral(id.0 as nat)),
            );
            &&& change(s, MixCommand::RemoveInstrument { id }) == unknown
            &&& change(s, MixCommand::AddInstrumentStrips { id }) == unknown
            &&& change(
                s,
                MixCommand::SetInstrumentVoice { id, soundfont, polyphony: 32, effects: false },
            ) == unknown
        },
{
    if forall|j: int| 0 <= j < s.fx.len() ==> (#[trigger] s.fx[j]).id != fx {
        lemma_absent(fx_ids(s.fx), fx);
    }
    if forall|j: int| 0 <= j < s.instruments.len() ==> (#[trigger] s.instruments[j]).id != id {
        lemma_absent(instrument_ids(s.instruments), id);
    }
}

/// The commands that cost a new graph are those that move strips, inputs, routes,
/// buses, voices, splits or patches. A level, a switch, a name and a tap do not.
pub proof fn which_commands_cost_a_graph(command: MixCommand)
    ensures
        need(command) == match command {
            MixCommand::SetFader { .. } => ReconcileNeed::ParamOnly,
            MixCommand::SetGain { .. } => ReconcileNeed::ParamOnly,
            MixCommand::SetEqBand { .. } => ReconcileNeed::ParamOnly,
            MixCommand::SetEqEnabled { .. } => ReconcileNeed::ParamOnly,
            MixCommand::SetPan { .. } => ReconcileNeed::ParamOnly,
            MixCommand::SetMute { .. } => ReconcileNeed::ParamOnly,
            MixCommand::SetPfl { .. } => ReconcileNeed::ParamOnly,
            MixCommand::SetInput { .. } => ReconcileNeed::Topology,
            MixCommand::Rename { .. } => ReconcileNeed::ParamOnly,
            MixCommand::AddStrip { .. } => ReconcileNeed::Topology,
            MixCommand::RemoveStrip { .. } => ReconcileNeed::Topology,
            MixCommand::SetSend { .. } => ReconcileNeed::ParamOnly,
            MixCommand::SetRoute { .. } => ReconcileNeed::Topology,
            MixCommand::SetFxParams { .. } => ReconcileNeed::ParamOnly,
            MixCommand::SetFxReturn { .. } => ReconcileNeed::ParamOnly,
            MixCommand::AddBus { .. } => ReconcileNeed::Topology,
            MixCommand::RemoveBus { .. } => ReconcileNeed::Topology,
            MixCommand::SetRecordArm { .. } => ReconcileNeed::ParamOnly,
            MixCommand::SetRecordArmAll { .. } => ReconcileNeed::ParamOnly,
            MixCommand::AddInstrument { .. } => ReconcileNeed::Topology,
            MixCommand::RemoveInstrument { .. } => ReconcileNeed::Topology,
            MixCommand::SetInstrumentVoice { .. } => ReconcileNeed::Topology,
            MixCommand::SetInstrumentPerformance { .. } => ReconcileNeed::ParamOnly,
            MixCommand::SetInstrumentSplits { .. } => ReconcileNeed::Topology,
            MixCommand::AddInstrumentStrips { .. } => ReconcileNeed::Topology,
            MixCommand::SetOutputPatch { .. } => ReconcileNeed::Topology,
            MixCommand::ClearOutputPatch { .. } => ReconcileNeed::Topology,
            MixCommand::SetOutputTap { .. } => ReconcileNeed::ParamOnly,
        },
        command.reshapes() <==> need(command) == ReconcileNeed::Topology,
{
}

/// What is kept of a text is what stands between the white space around it: white
/// space before and behind a text that neither begins nor ends with any is left out,
/// and nothing else is.
pub proof fn trimming_leaves_what_stands_between(
    lead: Seq<char>,
    kept: Seq<char>,
    trail: Seq<char>,
)
    requires
        forall|k: int| 0 <= k < lead.len() ==> is_space(#[trigger] lead[k]),
        forall|k: int| 0 <= k < trail.len() ==> is_space(#[trigger] trail[k]),
        kept.len() > 0 ==> !is_space(kept[0]) && !is_space(kept[kept.len() - 1]),
    ensures
        trimmed(lead + kept + trail) == kept,
{
    lemma_trimmed(lead, kept, trail);
}

/// White space is the tab, the line feed, the line tabulation, the form feed, the
/// carriage return, the space, and the fixed list of spaces above them. Letters,
/// digits and marks are none.
pub proof fn what_counts_as_white_space(c: char)
    ensures
        c == '\t' || c == '\n' || c == '\u{B}' || c == '\u{C}' || c == '\r' || c == ' '
            ==> is_space(c),
        '!' <= c <= '~' ==> !is_space(c),
        is_space(c) && c > '~' ==> c == '\u{85}' || c == '\u{A0}' || c == '\u{1680}' || '\u{2000}'
            <= c <= '\u{200A}' || c == '\u{2028}' || c == '\u{2029}' || c == '\u{202F}' || c
            == '\u{205F}' || c == '\u{3000}',
{
}

proof fn lemma_room(
    mark: u64,
    strips: Seq<StripView>,
    id: InstrumentId,
    names: Seq<Seq<char>>,
    channel: int,
)
    requires
        0 <= channel,
    ensures
        strips.len() + (names.len() - channel) <= 32 && (forall|c: int|
            channel <= c < names.len() ==> goes_on_tape(#[trigger] names[c], trimmed(names[c])))
            ==> desk_with(mark, strips, id, names, channel) is Ok,
        desk_with(mark, strips, id, names, channel) matches Err(e) ==> {
            ||| e == ErrorView::Unsupported("the console is full"@) && strips.len() + (names.len()
                - channel) > 32
            ||| exists|c: int|
                channel <= c < names.len() && off_the_tape(#[trigger] names[c], e)
        },
        desk_with(mark, strips, id, names, channel) matches Ok(desk) ==> strips.len() <= 32
            ==> desk.len() <= 32,
    decreases names.len() - channel,
{
    if channel < names.len() {
        if on_the_desk(strips, channel_patch(id, channel)) {
            lemma_room(mark, strips, id, names, channel + 1);
        } else if strips.len() < 32 && goes_on_tape(names[channel], trimmed(names[channel])) {
            let name = trimmed(names[channel]);
            let more = strips.push(channel_strip(mark, strips, id, channel, name));
            lemma_room(mark, more, id, names, channel + 1);
        } else if strips.len() < 32 {
            let outcome = desk_with(mark, strips, id, names, channel);
            assert(outcome is Err);
            assert(off_the_tape(names[channel], outcome->Err_0));
        }
    }
}

/// An instrument comes onto a desk that has room for all of its channels, under names
/// that go on the tape. Otherwise the desk is full, or one of the names does not.
pub proof fn a_desk_with_room_takes_an_instrument(s: MixerView, i: int, id: InstrumentId)
    requires
        instrument_is(s, id, i),
    ensures
        ({
            let unit = s.instruments[i];
            let width = if unit.splits.len() == 0 {
                2
            } else {
                unit.splits.len()
            };
            let outcome = change(s, MixCommand::AddInstrumentStrips { id });
            &&& s.strips.len() + width <= 32 && (forall|c: int|
                0 <= c < width ==> goes_on_tape(
                    #[trigger] channel_name(unit, c),
                    trimmed(channel_name(unit, c)),
                )) ==> outcome is Ok
            &&& outcome matches Ok((next, _)) ==> s.strips.len() <= 32 ==> next.strips.len() <= 32
            &&& outcome matches Err(e) ==> {
                ||| e == ErrorView::Unsupported("the console is full"@) && s.strips.len() + width
                    > 32
                ||| exists|c: int|
                    0 <= c < width && off_the_tape(#[trigger] channel_name(unit, c), e)
            }
        }),
{
    lemma_instrument_is(s, id, i);
    let unit = s.instruments[i];
    let names = unit.names();
    lemma_room(s.strip_mark, s.strips, id, names, 0);
    assert forall|c: int| 0 <= c < names.len() implies #[trigger] names[c] == channel_name(
        unit,
        c,
    ) by {}
    if forall|c: int|
        0 <= c < names.len() ==> goes_on_tape(
            #[trigger] channel_name(unit, c),
            trimmed(channel_name(unit, c)),
        ) {
        assert forall|c: int| 0 <= c < names.len() implies goes_on_tape(
            #[trigger] names[c],
            trimmed(names[c]),
        ) by {
            assert(goes_on_tape(channel_name(unit, c), trimmed(channel_name(unit, c))));
        }
    }
    if let Err(e) = desk_with(s.strip_mark, s.strips, id, names, 0) {
        if exists|c: int| 0 <= c < names.len() && off_the_tape(#[trigger] names[c], e) {
            let c = choose|c: int| 0 <= c < names.len() && off_the_tape(#[trigger] names[c], e);
            assert(off_the_tape(channel_name(unit, c), e));
        }
    }
}

/// A strip that is not on the desk is refused by its name by the equaliser, the sends
/// and the tape too.
pub proof fn a_missing_strip_has_no_bands(
    s: MixerView,
    id: StripId,
    band: EqBandKind,
    freq_hz: Single,
    gain_db: Single,
    q: Single,
    b: int,
    dest: BusId,
    tap: SendTap,
    name: String,
)
    requires
        forall|j: int| 0 <= j < s.strips.len() ==> (#[trigger] s.strips[j]).id != id,
        from_to(0x41A0_0000, freq_hz, 0x469C_4000),
        from_to(-0x4170_0000, gain_db, 0x4170_0000),
        from_to(0x3DCC_CCCD, q, 0x4120_0000),
        bus_is(s, dest, b),
        s.buses[b].kind == BusKind::Aux,
        goes_on_tape(name@, trimmed(name@)),
    ensures
        ({
            let unknown = Err::<(MixerView, DeltaView), ErrorView>(
                ErrorView::UnknownTarget("strip#"@ + numeral(id.0 as nat)),
            );
            let zero = Single { bits: 0 };
            &&& change(s, MixCommand::SetEqBand { strip: id, band, freq_hz, gain_db, q })
                == unknown
            &&& change(s, MixCommand::SetSend { strip: id, dest, level_db: zero, tap }) == unknown
            &&& change(s, MixCommand::Rename { target: FaderTarget::Strip { id }, name })
                == unknown
        }),
{
    lemma_absent(strip_ids(s.strips), id);
    lemma_bus_is(s, dest, b);
}

} // verus!
