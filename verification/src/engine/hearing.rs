//! Which voices are told of an event, and what they are told.

use vstd::prelude::*;

use crate::engine::instrument::captures_of;
use crate::engine::instrument::plays;
use crate::engine::instrument::preset_selection;
use crate::engine::instrument::rack_after;
use crate::engine::instrument::rack_played;
use crate::engine::instrument::reaches;
use crate::engine::instrument::width_before;
use crate::engine::instrument::Heard;
use crate::engine::instrument::MidiEvent;
use crate::engine::instrument::VoiceView;

verus! {

/// The event comes in where the voice listens: on its port, and on its channel if
/// it has one.
pub open spec fn arrives(voice: VoiceView, event: MidiEvent) -> bool {
    match (voice.binding.port, voice.binding.channel) {
        (None, _) => false,
        (Some(port), None) => port == event.port,
        (Some(port), Some(channel)) => port == event.port && channel == event.channel,
    }
}

/// The key lies in one of the voice's ranges, or the voice has none and so has the
/// whole keyboard.
pub open spec fn has_key(voice: VoiceView, key: u8) -> bool {
    voice.keys.len() == 0 || exists|r: int|
        0 <= r < voice.keys.len() && (#[trigger] voice.keys[r]).0 <= key && key <= voice.keys[r].1
}

/// The event as a voice is told of it: all of it, on the one channel that a voice
/// has.
pub open spec fn told(event: MidiEvent) -> Heard {
    Heard::Message { channel: 0, status: event.status, data1: event.data1, data2: event.data2 }
}

/// The voice of a slot is told of an event that arrives, of a note on, a note off
/// or a key's pressure where it has the key, and of every other status whatever the
/// data. A voice without ranges is told of everything that arrives. Nothing else
/// about the voice changes, and an empty slot stays empty.
pub proof fn an_event_reaches_its_voices(rack: Seq<Option<VoiceView>>, event: MidiEvent, i: int)
    requires
        0 <= i < rack.len(),
    ensures
        rack_after(rack, event).len() == rack.len(),
        match (rack[i], rack_after(rack, event)[i]) {
            (None, None) => !reaches(rack[i], event),
            (Some(voice), Some(after)) => {
                let heard = after.heard == voice.heard.push(told(event));
                &&& after.heard == voice.heard || heard
                &&& reaches(rack[i], event) == heard
                &&& !arrives(voice, event) ==> !heard
                &&& arrives(voice, event) && event.status == 0x80 ==> heard == has_key(
                    voice,
                    event.data1,
                )
                &&& arrives(voice, event) && event.status == 0x90 ==> heard == has_key(
                    voice,
                    event.data1,
                )
                &&& arrives(voice, event) && event.status == 0xA0 ==> heard == has_key(
                    voice,
                    event.data1,
                )
                &&& arrives(voice, event) && event.status != 0x80 && event.status != 0x90
                    && event.status != 0xA0 ==> heard
                &&& arrives(voice, event) && voice.keys.len() == 0 ==> heard
                &&& after.binding == voice.binding
                &&& after.keys == voice.keys
                &&& after.settings == voice.settings
                &&& after.font == voice.font
            },
            _ => false,
        },
{
    if let Some(voice) = rack[i] {
        assert(voice.heard.push(told(event)).len() != voice.heard.len());
    }
}

/// A voice plays a note on, a note off and a key's pressure on the keys it has, and
/// every other status.
pub proof fn a_voice_plays_its_keys(voice: VoiceView, event: MidiEvent)
    ensures
        event.status == 0x80 ==> plays(voice, event) == has_key(voice, event.data1),
        event.status == 0x90 ==> plays(voice, event) == has_key(voice, event.data1),
        event.status == 0xA0 ==> plays(voice, event) == has_key(voice, event.data1),
        event.status != 0x80 && event.status != 0x90 && event.status != 0xA0 ==> plays(
            voice,
            event,
        ),
        voice.keys.len() == 0 ==> plays(voice, event),
{
}

/// A note that a voice was told to start it is told to end, when the note off for
/// that key comes in on the same port and channel.
pub proof fn a_note_that_starts_can_end(
    rack: Seq<Option<VoiceView>>,
    on: MidiEvent,
    off: MidiEvent,
    i: int,
)
    requires
        0 <= i < rack.len(),
        rack[i] is Some,
        on.status == 0x90,
        off.status == 0x80,
        off.port == on.port,
        off.channel == on.channel,
        off.data1 == on.data1,
        rack_after(rack, on)[i]->0.heard.len() > rack[i]->0.heard.len(),
    ensures
        rack_after(rack_after(rack, on), off)[i] is Some,
        rack_after(rack_after(rack, on), off)[i]->0.heard == rack[i]->0.heard.push(
            Heard::Message { channel: 0, status: 0x90, data1: on.data1, data2: on.data2 },
        ).push(Heard::Message { channel: 0, status: 0x80, data1: on.data1, data2: off.data2 }),
{
    an_event_reaches_its_voices(rack, on, i);
    an_event_reaches_its_voices(rack_after(rack, on), off, i);
}

/// The messages that a voice is told of out of a run of events, in order.
pub open spec fn told_of(voice: VoiceView, events: Seq<MidiEvent>) -> Seq<Heard> {
    events.filter(
        |event: MidiEvent|
            arrives(voice, event) && (event.status == 0x80 || event.status == 0x90 || event.status
                == 0xA0 ==> has_key(voice, event.data1)),
    ).map_values(|event: MidiEvent| told(event))
}

/// A voice is told of the events that it plays, each once and in the order in which
/// they came.
pub proof fn a_voice_hears_its_events_in_order(
    rack: Seq<Option<VoiceView>>,
    events: Seq<MidiEvent>,
    i: int,
)
    requires
        0 <= i < rack.len(),
        rack[i] is Some,
    ensures
        rack_played(rack, events, events.len() as int).len() == rack.len(),
        rack_played(rack, events, events.len() as int)[i] == Some(
            VoiceView { heard: rack[i]->0.heard + told_of(rack[i]->0, events), ..rack[i]->0 },
        ),
    decreases events.len(),
{
    let voice = rack[i]->0;
    reveal(Seq::filter);
    if events.len() == 0 {
        assert(voice.heard + told_of(voice, events) =~= voice.heard);
    } else {
        let rest = events.drop_last();
        a_voice_hears_its_events_in_order(rack, rest, i);
        lemma_same_run(rack, rest, events, rest.len() as int);
        let before = rack_played(rack, rest, rest.len() as int);
        an_event_reaches_its_voices(before, events.last(), i);
        let p = |event: MidiEvent|
            arrives(voice, event) && (event.status == 0x80 || event.status == 0x90 || event.status
                == 0xA0 ==> has_key(voice, event.data1));
        let kept = rest.filter(p);
        assert(events.filter(p) == if p(events.last()) {
            kept.push(events.last())
        } else {
            kept
        });
        assert(arrives(before[i]->0, events.last()) == arrives(voice, events.last()));
        assert(has_key(before[i]->0, events.last().data1) == has_key(voice, events.last().data1));
        assert(told_of(voice, events) =~= if p(events.last()) {
            told_of(voice, rest).push(told(events.last()))
        } else {
            told_of(voice, rest)
        });
        assert(voice.heard + told_of(voice, rest).push(told(events.last())) =~= (voice.heard
            + told_of(voice, rest)).push(told(events.last())));
    }
}

proof fn lemma_same_run(
    rack: Seq<Option<VoiceView>>,
    events: Seq<MidiEvent>,
    longer: Seq<MidiEvent>,
    n: int,
)
    requires
        n <= events.len() <= longer.len(),
        events == longer.take(events.len() as int),
    ensures
        rack_played(rack, events, n) == rack_played(rack, longer, n),
    decreases n,
{
    if n > 0 {
        lemma_same_run(rack, events, longer, n - 1);
        assert(events[n - 1] == longer[n - 1]);
    }
}

/// An event leaves one note of itself for every slot it reaches, and none for the
/// others: slot by slot, each with the stamp, the status and the data of the event.
pub proof fn a_take_notes_every_slot_reached(
    rack: Seq<Option<VoiceView>>,
    event: MidiEvent,
    at: u64,
    n: int,
)
    requires
        0 <= n <= rack.len() <= 65536,
    ensures
        forall|k: int|
            0 <= k < captures_of(rack, event, at, n).len() ==> {
                let entry = #[trigger] captures_of(rack, event, at, n)[k];
                &&& entry.sample == at
                &&& entry.status == event.status
                &&& entry.data1 == event.data1
                &&& entry.data2 == event.data2
                &&& entry.instrument < n
                &&& reaches(rack[entry.instrument as int], event)
            },
        forall|j: int, k: int|
            0 <= j < k < captures_of(rack, event, at, n).len() ==> (#[trigger] captures_of(
                rack,
                event,
                at,
                n,
            )[j]).instrument < (#[trigger] captures_of(rack, event, at, n)[k]).instrument,
        forall|i: int|
            0 <= i < n && #[trigger] reaches(rack[i], event) ==> exists|k: int|
                0 <= k < captures_of(rack, event, at, n).len() && (#[trigger] captures_of(
                    rack,
                    event,
                    at,
                    n,
                )[k]).instrument == i,
    decreases n,
{
    if n > 0 {
        a_take_notes_every_slot_reached(rack, event, at, n - 1);
        let rest = captures_of(rack, event, at, n - 1);
        let all = captures_of(rack, event, at, n);
        assert forall|i: int| 0 <= i < n && #[trigger] reaches(rack[i], event) implies exists|k: int|
            0 <= k < all.len() && (#[trigger] all[k]).instrument == i by {
            if i < n - 1 {
                let k = choose|k: int| 0 <= k < rest.len() && (#[trigger] rest[k]).instrument == i;
                assert(all[k] == rest[k]);
            } else {
                assert(all[all.len() - 1].instrument == i);
            }
        }
        assert forall|k: int| 0 <= k < all.len() implies {
            let entry = #[trigger] all[k];
            &&& entry.sample == at
            &&& entry.status == event.status
            &&& entry.data1 == event.data1
            &&& entry.data2 == event.data2
            &&& entry.instrument < n
            &&& reaches(rack[entry.instrument as int], event)
        } by {
            if k < rest.len() {
                assert(all[k] == rest[k]);
            }
        }
        assert forall|j: int, k: int| 0 <= j < k < all.len() implies (
        #[trigger] all[j]).instrument < (#[trigger] all[k]).instrument by {
            assert(all[j] == rest[j]);
            if k < rest.len() {
                assert(all[k] == rest[k]);
            }
        }
    }
}

/// A preset is chosen by the bank, seven bits at a time by controllers 0 and 32, and
/// then the program.
pub proof fn a_preset_is_chosen_by_bank_and_program(bank: u16, program: u8)
    ensures
        ({
            let messages = preset_selection(bank, program);
            &&& messages.len() == 3
            &&& messages[0] matches Heard::Message { channel, status, data1, data2: high }
            &&& channel == 0 && status == 0xB0 && data1 == 0 && high < 128
            &&& messages[1] matches Heard::Message {
                channel: c1,
                status: s1,
                data1: d1,
                data2: low,
            }
            &&& c1 == 0 && s1 == 0xB0 && d1 == 32 && low < 128
            &&& bank < 16384 ==> high * 128 + low == bank
            &&& messages[2] == (Heard::Message {
                channel: 0,
                status: 0xC0,
                data1: program,
                data2: 0,
            })
        }),
{
}

/// The channels of the rack lie one slot behind the other.
pub proof fn a_slot_lies_behind_those_before_it(widths: Seq<u8>, n: int, m: int)
    requires
        0 <= n <= m <= widths.len(),
    ensures
        width_before(widths, 0) == 0,
        n < m ==> width_before(widths, n) + widths[n] <= width_before(widths, m),
        n < widths.len() ==> width_before(widths, n + 1) == width_before(widths, n) + widths[n],
    decreases m,
{
    if n < m {
        a_slot_lies_behind_those_before_it(widths, n, m - 1);
    }
}

} // verus!
