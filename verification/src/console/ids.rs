//! Ids are never used again within a project: what a removed strip recorded, and what
//! a removed instrument was patched to, stays attributable.

use vstd::prelude::*;

use crate::console::change::change;
use crate::console::change::channel_strip;
use crate::console::change::desk_numbers_fit;
use crate::console::change::desk_with;
use crate::console::change::numbers_fit;
use crate::console::change::on_the_desk;
use crate::console::change::channel_patch;
use crate::console::change::other_instrument;
use crate::console::change::other_strip;
use crate::console::change::tape_name;
use crate::console::command::MixCommand;
use crate::console::id::InstrumentId;
use crate::console::id::StripId;
use crate::console::instrument::InstrumentView;
use crate::console::laws::has_strip;
use crate::console::laws::lemma_at;
use crate::console::laws::lemma_desk_complete;
use crate::console::mix::instrument_numbers;
use crate::console::mix::strip_numbers;
use crate::console::mix::MixerView;
use crate::console::strip::StripView;
use crate::seqs::filter_origins;
use crate::seqs::next_free_is_unused;
use crate::seqs::next_number;

verus! {

/// Whether the document holds an instrument of that id.
pub open spec fn has_instrument(instruments: Seq<InstrumentView>, id: InstrumentId) -> bool {
    exists|i: int| 0 <= i < instruments.len() && (#[trigger] instruments[i]).id == id
}

/// The next number only grows, as long as the mark does and every number in use stays
/// in use or falls below the mark.
proof fn lemma_next_grows(mark: u64, ids: Seq<u32>, later: u64, left: Seq<u32>)
    requires
        mark <= later,
        forall|i: int|
            0 <= i < ids.len() ==> left.contains(#[trigger] ids[i]) || ids[i] < later,
    ensures
        next_number(mark, ids) <= next_number(later, left),
{
    next_free_is_unused(ids);
    next_free_is_unused(left);
    if ids.len() > 0 {
        let i = choose|i: int|
            0 <= i < ids.len() && (#[trigger] ids[i]) + 1 == crate::seqs::next_free(ids);
        if left.contains(ids[i]) {
            let j = choose|j: int| 0 <= j < left.len() && left[j] == ids[i];
            assert(left[j] < crate::seqs::next_free(left));
        }
    }
}

/// Every number in use is below the next one.
proof fn lemma_below_next(s: MixerView)
    ensures
        forall|id: StripId| #[trigger] has_strip(s.strips, id) ==> id.0 < s.next_strip(),
        forall|id: InstrumentId| #[trigger]
            has_instrument(s.instruments, id) ==> id.0 < s.next_instrument(),
{
    let strips = strip_numbers(s.strips);
    let instruments = instrument_numbers(s.instruments);
    next_free_is_unused(strips);
    next_free_is_unused(instruments);
    assert forall|id: StripId| #[trigger] has_strip(s.strips, id) implies id.0 < s.next_strip() by {
        let i = choose|i: int| 0 <= i < s.strips.len() && (#[trigger] s.strips[i]).id == id;
        assert(strips[i] == id.0);
    }
    assert forall|id: InstrumentId| #[trigger] has_instrument(s.instruments, id) implies id.0
        < s.next_instrument() by {
        let i = choose|i: int|
            0 <= i < s.instruments.len() && (#[trigger] s.instruments[i]).id == id;
        assert(instruments[i] == id.0);
    }
}

/// What a step does to the strips' ids.
spec fn strips_move_on(s: MixerView, next: MixerView) -> bool {
    &&& s.next_strip() <= next.next_strip()
    &&& forall|id: StripId| #[trigger]
        has_strip(next.strips, id) ==> has_strip(s.strips, id) || id.0 >= s.next_strip()
}

/// What a step does to the instruments' ids.
spec fn instruments_move_on(s: MixerView, next: MixerView) -> bool {
    &&& s.next_instrument() <= next.next_instrument()
    &&& forall|id: InstrumentId| #[trigger]
        has_instrument(next.instruments, id) ==> has_instrument(s.instruments, id) || id.0
            >= s.next_instrument()
}

proof fn lemma_same_strips(s: MixerView, next: MixerView)
    requires
        next.strips.len() == s.strips.len(),
        forall|i: int| 0 <= i < s.strips.len() ==> (#[trigger] next.strips[i]).id == s.strips[i].id,
        next.strip_mark == s.strip_mark,
    ensures
        strips_move_on(s, next),
{
    assert(strip_numbers(next.strips) =~= strip_numbers(s.strips));
    assert forall|id: StripId| #[trigger] has_strip(next.strips, id) implies has_strip(
        s.strips,
        id,
    ) by {
        let i = choose|i: int| 0 <= i < next.strips.len() && (#[trigger] next.strips[i]).id == id;
        assert(s.strips[i].id == id);
    }
}

proof fn lemma_same_instruments(s: MixerView, next: MixerView)
    requires
        next.instruments.len() == s.instruments.len(),
        forall|i: int|
            0 <= i < s.instruments.len() ==> (#[trigger] next.instruments[i]).id
                == s.instruments[i].id,
        next.instrument_mark == s.instrument_mark,
    ensures
        instruments_move_on(s, next),
{
    assert(instrument_numbers(next.instruments) =~= instrument_numbers(s.instruments));
    assert forall|id: InstrumentId| #[trigger] has_instrument(
        next.instruments,
        id,
    ) implies has_instrument(s.instruments, id) by {
        let i = choose|i: int|
            0 <= i < next.instruments.len() && (#[trigger] next.instruments[i]).id == id;
        assert(s.instruments[i].id == id);
    }
}

/// Where the old strips stay in front and every new one bears a number that was not
/// handed out yet.
proof fn lemma_more_strips(s: MixerView, next: MixerView)
    requires
        next.strips.len() >= s.strips.len(),
        next.strips.take(s.strips.len() as int) == s.strips,
        next.strip_mark == s.strip_mark,
        forall|i: int|
            s.strips.len() <= i < next.strips.len() ==> (#[trigger] next.strips[i]).id.0
                >= s.next_strip(),
    ensures
        strips_move_on(s, next),
{
    let before = strip_numbers(s.strips);
    let after = strip_numbers(next.strips);
    assert forall|i: int| 0 <= i < before.len() implies after.contains(#[trigger] before[i]) by {
        assert(next.strips.take(s.strips.len() as int)[i] == next.strips[i]);
        assert(after[i] == before[i]);
    }
    lemma_next_grows(s.strip_mark, before, next.strip_mark, after);
    assert forall|id: StripId| #[trigger] has_strip(next.strips, id) implies has_strip(s.strips, id)
        || id.0 >= s.next_strip() by {
        let i = choose|i: int| 0 <= i < next.strips.len() && (#[trigger] next.strips[i]).id == id;
        if i < s.strips.len() {
            assert(next.strips.take(s.strips.len() as int)[i] == next.strips[i]);
            assert(s.strips[i].id == id);
        }
    }
}

proof fn lemma_desk_numbers(
    mark: u64,
    strips: Seq<StripView>,
    id: InstrumentId,
    names: Seq<Seq<char>>,
    channel: int,
)
    requires
        0 <= channel,
        desk_with(mark, strips, id, names, channel) is Ok,
        desk_numbers_fit(mark, strips, id, names, channel),
    ensures
        ({
            let desk = desk_with(mark, strips, id, names, channel)->Ok_0;
            forall|i: int|
                strips.len() <= i < desk.len() ==> (#[trigger] desk[i]).id.0 >= next_number(
                    mark,
                    strip_numbers(strips),
                )
        }),
    decreases names.len() - channel,
{
    if channel >= names.len() {
    } else if on_the_desk(strips, channel_patch(id, channel)) {
        lemma_desk_numbers(mark, strips, id, names, channel + 1);
    } else {
        let name = tape_name(names[channel])->Ok_0;
        let strip = channel_strip(mark, strips, id, channel, name);
        let longer = strips.push(strip);
        let desk = desk_with(mark, strips, id, names, channel)->Ok_0;
        lemma_desk_numbers(mark, longer, id, names, channel + 1);
        lemma_desk_complete(mark, longer, id, names, channel + 1);
        let before = strip_numbers(strips);
        let after = strip_numbers(longer);
        assert forall|i: int| 0 <= i < before.len() implies after.contains(
            #[trigger] before[i],
        ) by {
            assert(after[i] == before[i]);
        }
        lemma_next_grows(mark, before, mark, after);
        assert(desk.take(longer.len() as int)[strips.len() as int] == strip);
    }
}

proof fn lemma_strip_gone(s: MixerView, id: StripId, next: MixerView)
    requires
        next.strips == s.strips.filter(other_strip(id)),
        next.strip_mark == crate::console::mix::raised(s.strip_mark, id.0),
    ensures
        strips_move_on(s, next),
{
    let kept = filter_origins(s.strips, other_strip(id));
    let before = strip_numbers(s.strips);
    let after = strip_numbers(next.strips);
    assert forall|i: int| 0 <= i < before.len() implies after.contains(#[trigger] before[i])
        || before[i] < next.strip_mark by {
        if s.strips[i].id != id {
            assert(other_strip(id)(s.strips[i]));
            assert(kept.contains(i));
            let j = choose|j: int| 0 <= j < kept.len() && kept[j] == i;
            assert(next.strips[j] == s.strips[i]);
            assert(after[j] == before[i]);
        }
    }
    lemma_next_grows(s.strip_mark, before, next.strip_mark, after);
    assert forall|other: StripId| #[trigger] has_strip(next.strips, other) implies has_strip(
        s.strips,
        other,
    ) by {
        let j = choose|j: int| 0 <= j < next.strips.len() && (#[trigger] next.strips[j]).id == other;
        assert(next.strips[j] == s.strips[kept[j]]);
    }
}

proof fn lemma_instrument_gone(s: MixerView, id: InstrumentId, next: MixerView)
    requires
        next.instruments == s.instruments.filter(other_instrument(id)),
        next.instrument_mark == crate::console::mix::raised(s.instrument_mark, id.0),
    ensures
        instruments_move_on(s, next),
{
    let kept = filter_origins(s.instruments, other_instrument(id));
    let before = instrument_numbers(s.instruments);
    let after = instrument_numbers(next.instruments);
    assert forall|i: int| 0 <= i < before.len() implies after.contains(#[trigger] before[i])
        || before[i] < next.instrument_mark by {
        if s.instruments[i].id != id {
            assert(other_instrument(id)(s.instruments[i]));
            assert(kept.contains(i));
            let j = choose|j: int| 0 <= j < kept.len() && kept[j] == i;
            assert(next.instruments[j] == s.instruments[i]);
            assert(after[j] == before[i]);
        }
    }
    lemma_next_grows(s.instrument_mark, before, next.instrument_mark, after);
    assert forall|other: InstrumentId| #[trigger] has_instrument(
        next.instruments,
        other,
    ) implies has_instrument(s.instruments, other) by {
        let j = choose|j: int|
            0 <= j < next.instruments.len() && (#[trigger] next.instruments[j]).id == other;
        assert(next.instruments[j] == s.instruments[kept[j]]);
    }
}

#[verifier::rlimit(60)]
proof fn lemma_step(s: MixerView, command: MixCommand)
    requires
        numbers_fit(s, command),
        change(s, command) is Ok,
    ensures
        strips_move_on(s, change(s, command)->Ok_0.0),
        instruments_move_on(s, change(s, command)->Ok_0.0),
{
    lemma_at(s);
    let next = change(s, command)->Ok_0.0;
    match command {
        MixCommand::AddStrip { .. } => {
            assert(next.strips.take(s.strips.len() as int) =~= s.strips);
            lemma_more_strips(s, next);
            lemma_same_instruments(s, next);
        },
        MixCommand::AddInstrumentStrips { id } => {
            let names = s.instruments[s.instrument_at(id)->0].names();
            lemma_desk_complete(s.strip_mark, s.strips, id, names, 0);
            lemma_desk_numbers(s.strip_mark, s.strips, id, names, 0);
            lemma_more_strips(s, next);
            lemma_same_instruments(s, next);
        },
        MixCommand::RemoveStrip { id } => {
            lemma_strip_gone(s, id, next);
            lemma_same_instruments(s, next);
        },
        MixCommand::RemoveInstrument { id } => {
            lemma_instrument_gone(s, id, next);
            lemma_same_strips(s, next);
        },
        MixCommand::AddInstrument { .. } => {
            let before = instrument_numbers(s.instruments);
            let after = instrument_numbers(next.instruments);
            assert forall|i: int| 0 <= i < before.len() implies after.contains(
                #[trigger] before[i],
            ) by {
                assert(after[i] == before[i]);
            }
            lemma_next_grows(s.instrument_mark, before, next.instrument_mark, after);
            assert forall|id: InstrumentId| #[trigger] has_instrument(
                next.instruments,
                id,
            ) implies has_instrument(s.instruments, id) || id.0 >= s.next_instrument() by {
                let i = choose|i: int|
                    0 <= i < next.instruments.len() && (#[trigger] next.instruments[i]).id == id;
                if i < s.instruments.len() {
                    assert(s.instruments[i].id == id);
                }
            }
            lemma_same_strips(s, next);
        },
        _ => {
            lemma_same_strips(s, next);
            lemma_same_instruments(s, next);
        },
    }
}

/// Whether a project went through these states under these commands. A command that
/// is refused leaves the document as it was.
pub open spec fn went_through(states: Seq<MixerView>, commands: Seq<MixCommand>) -> bool {
    &&& states.len() == commands.len() + 1
    &&& forall|k: int|
        0 <= k < commands.len() ==> {
            &&& numbers_fit(states[k], #[trigger] commands[k])
            &&& match change(states[k], commands[k]) {
                Ok((next, _)) => states[k + 1] == next,
                Err(_) => states[k + 1] == states[k],
            }
        }
}

proof fn lemma_run(states: Seq<MixerView>, commands: Seq<MixCommand>, i: int, k: int)
    requires
        went_through(states, commands),
        0 <= i <= k < states.len(),
    ensures
        strips_move_on(states[i], states[k]),
        instruments_move_on(states[i], states[k]),
    decreases k,
{
    if i < k {
        lemma_run(states, commands, i, k - 1);
        let command = commands[k - 1];
        if change(states[k - 1], command) is Ok {
            lemma_step(states[k - 1], command);
        }
    }
}

/// However a project goes on, the next strip id is one that no strip ever bore, and a
/// strip id that was removed never comes back.
pub proof fn a_strip_id_is_never_used_again(
    states: Seq<MixerView>,
    commands: Seq<MixCommand>,
    i: int,
    j: int,
    k: int,
    id: StripId,
)
    requires
        went_through(states, commands),
        0 <= i <= j <= k < states.len(),
        has_strip(states[i].strips, id),
    ensures
        id.0 < states[k].next_strip(),
        !has_strip(states[j].strips, id) ==> !has_strip(states[k].strips, id),
{
    lemma_below_next(states[i]);
    lemma_run(states, commands, i, j);
    lemma_run(states, commands, j, k);
}

/// However a project goes on, the next instrument id is one that no instrument ever
/// bore, and an instrument id that was removed never comes back.
pub proof fn an_instrument_id_is_never_used_again(
    states: Seq<MixerView>,
    commands: Seq<MixCommand>,
    i: int,
    j: int,
    k: int,
    id: InstrumentId,
)
    requires
        went_through(states, commands),
        0 <= i <= j <= k < states.len(),
        has_instrument(states[i].instruments, id),
    ensures
        id.0 < states[k].next_instrument(),
        !has_instrument(states[j].instruments, id) ==> !has_instrument(states[k].instruments, id),
{
    lemma_below_next(states[i]);
    lemma_run(states, commands, i, j);
    lemma_run(states, commands, j, k);
}

} // verus!
