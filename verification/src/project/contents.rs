//! What a session, a take and a track hold, and how they are called.

use vstd::arithmetic::div_mod::lemma_mod_add_multiples_vanish;
use vstd::arithmetic::div_mod::lemma_small_mod;
use vstd::prelude::*;

use crate::console::instrument::CapturedMidi;
use crate::project::format::RecordFormat;
use crate::project::midi::smf;
use crate::project::naming::a_padded_number_reads_back;
use crate::project::naming::alphanumeric;
use crate::project::naming::dashes;
use crate::project::naming::lowered;
use crate::project::naming::padded;
use crate::project::naming::slug;
use crate::project::notes::from_slot;
use crate::project::notes::played;
use crate::project::notes::sidecar_name;
use crate::project::notes::sidecar_of;
use crate::project::notes::sidecars_of;
use crate::project::order::at_rank;
use crate::project::order::holds;
use crate::project::order::sorts;
use crate::project::order::Ranked;
use crate::project::reader::agrees;
use crate::project::reader::broke;
use crate::project::reader::end_of;
use crate::project::reader::frame_of;
use crate::project::reader::lead;
use crate::project::reader::loop_start;
use crate::project::reader::walk;
use crate::project::reader::FileSpec;
use crate::project::session::has_control;
use crate::project::session::is_component;
use crate::project::session::is_session;
use crate::project::session::last_component;
use crate::project::session::last_slash;
use crate::project::session::name_fault;
use crate::project::session::parent_of;
use crate::project::sessions::newest_first;
use crate::project::sessions::session_name;
use crate::project::sessions::sessions_in;
use crate::project::sessions::FoundDir;
use crate::project::sessions::SummaryView;
use crate::project::takes::joined_path;
use crate::project::takes::readable_takes;
use crate::project::takes::take_name;
use crate::project::takes::take_number;
use crate::project::takes::TakeInfo;
use crate::project::writer::entry_of;
use crate::project::writer::is_damaged;
use crate::project::writer::TakeTrackSpec;
use crate::project::writer::TrackManifest;
use crate::project::writer::TrackOutcome;
use crate::seqs::filter_origins;
use crate::single::Single;
use crate::text::before;
use crate::text::before_is_an_order;
use crate::text::is_control;
use crate::text::number_of;
use crate::text::numeral;
use crate::text::trimmed;

verus! {

/// A session's name is what stands between the white space around it: something, at
/// most 64 characters, no control characters. The first fault is the one reported.
pub proof fn what_a_session_may_be_called(name: Seq<char>)
    ensures
        ({
            let kept = trimmed(name);
            let control = exists|i: int|
                0 <= i < kept.len() && (#[trigger] kept[i] <= '\u{1F}' || '\u{7F}' <= kept[i]
                    <= '\u{9F}');
            match name_fault(name) {
                None => 0 < kept.len() <= 64 && !control,
                Some(fault) => {
                    ||| kept.len() == 0 && fault == "name the session"@
                    ||| kept.len() > 64 && fault == "at most 64 characters"@
                    ||| 0 < kept.len() <= 64 && control && fault
                        == "one line, no control characters"@
                },
            }
        }),
{
    let kept = trimmed(name);
    if exists|i: int|
        0 <= i < kept.len() && (#[trigger] kept[i] <= '\u{1F}' || '\u{7F}' <= kept[i]
            <= '\u{9F}') {
        let i = choose|i: int|
            0 <= i < kept.len() && (#[trigger] kept[i] <= '\u{1F}' || '\u{7F}' <= kept[i]
                <= '\u{9F}');
        assert(is_control(kept[i]));
    }
    if has_control(kept) {
        let i = choose|i: int| 0 <= i < kept.len() && is_control(#[trigger] kept[i]);
        assert(kept[i] <= '\u{1F}' || '\u{7F}' <= kept[i] <= '\u{9F}');
    }
}

/// One ordinary component of a path is something without a slash that leads neither
/// nowhere nor up.
pub proof fn what_is_one_component(text: Seq<char>, i: int)
    ensures
        is_component(text) ==> text.len() > 0 && text != "."@ && text != ".."@,
        is_component(text) && 0 <= i < text.len() ==> text[i] != '/',
        text.len() > 0 && text != "."@ && text != ".."@ && (forall|k: int|
            0 <= k < text.len() ==> #[trigger] text[k] != '/') ==> is_component(text),
{
}

proof fn lemma_last_slash(front: Seq<char>, name: Seq<char>)
    requires
        forall|k: int| 0 <= k < name.len() ==> #[trigger] name[k] != '/',
    ensures
        last_slash(front.push('/') + name) == front.len(),
    decreases name.len(),
{
    let path = front.push('/') + name;
    if name.len() == 0 {
        assert(path =~= front.push('/'));
    } else {
        assert(path.last() == name[name.len() - 1]);
        assert(path.drop_last() =~= front.push('/') + name.drop_last());
        lemma_last_slash(front, name.drop_last());
    }
}

/// What lies in a directory, one component below it, has it for a parent, and the
/// component for a name.
pub proof fn a_parent_is_what_stands_before_the_name(root: Seq<char>, name: Seq<char>)
    requires
        root.len() > 0,
        name.len() > 0,
        forall|k: int| 0 <= k < name.len() ==> #[trigger] name[k] != '/',
    ensures
        parent_of(root.push('/') + name) == Some(root),
        last_component(root.push('/') + name) == name,
        parent_of("/"@ + name) == Some("/"@),
        last_component("/"@ + name) == name,
{
    lemma_last_slash(root, name);
    let path = root.push('/') + name;
    assert(path.take(root.len() as int) =~= root);
    assert(path.skip(root.len() as int + 1) =~= name);
    reveal_strlit("/");
    lemma_last_slash(Seq::empty(), name);
    let top = "/"@ + name;
    assert(top =~= Seq::<char>::empty().push('/') + name);
    assert(top.take(1) =~= "/"@);
    assert(top.skip(1) =~= name);
}

/// A directory is a session where it is there, lies directly under the root, and
/// holds a manifest.
pub proof fn what_counts_as_a_session(
    root: Option<Seq<char>>,
    dir: Option<Seq<char>>,
    has_manifest: bool,
)
    ensures
        is_session(root, dir, has_manifest) <==> {
            &&& has_manifest
            &&& root is Some
            &&& dir is Some
            &&& parent_of(dir->0) == Some(root->0)
        },
{
}

/// A session's directory is called by its second and its name.
pub proof fn a_session_is_called_by_its_second(created: u64, name: Seq<char>)
    ensures
        session_name(created, name) == numeral(created as nat) + "-"@ + slug(name),
        take_name(created as nat) == "take-"@ + padded(created as nat, 3),
{
}

/// A slug keeps what is alphanumeric of the name in lower case, and has a dash for
/// everything else.
pub proof fn a_slug_has_dashes_for_the_rest(text: Seq<char>, kept: Seq<bool>, i: int)
    requires
        0 <= i < lowered(text).len(),
    ensures
        slug(text).len() == lowered(text).len(),
        alphanumeric(lowered(text)[i]) ==> slug(text)[i] == lowered(text)[i],
        !alphanumeric(lowered(text)[i]) ==> slug(text)[i] == '-',
        dashes(lowered(text), kept).len() == lowered(text).len(),
        dashes(lowered(text), kept)[i] == if kept[i] {
            lowered(text)[i]
        } else {
            '-'
        },
{
}

/// A padded number has at least the digits asked for, and no more zeros than that
/// takes.
pub proof fn padding_fills_up_with_zeros(n: nat, width: nat, i: int)
    ensures
        number_of(padded(n, width)) == Some(n),
        numeral(n).len() >= width ==> padded(n, width) == numeral(n),
        numeral(n).len() < width ==> {
            let fill = width - numeral(n).len();
            &&& padded(n, width).len() == width
            &&& padded(n, width).skip(fill) == numeral(n)
            &&& 0 <= i < fill ==> padded(n, width)[i] == '0'
        },
{
    a_padded_number_reads_back(n, width);
    if numeral(n).len() < width {
        let fill = width - numeral(n).len();
        assert(padded(n, width).skip(fill) =~= numeral(n));
    }
}

/// Every directory with a manifest that reads is listed with what it says. The others
/// are not.
pub proof fn every_readable_session_is_listed(found: Seq<FoundDir>, next: FoundDir)
    ensures
        sessions_in(Seq::empty()).len() == 0,
        next.manifest is None ==> sessions_in(found.push(next)) == sessions_in(found),
        next.manifest matches Some(head) ==> sessions_in(found.push(next)) == sessions_in(
            found,
        ).push(
            SummaryView {
                id: next.id@,
                name: head.name@,
                created_at_unix: head.created_at_unix,
                take_count: next.take_count,
            },
        ),
{
    assert(found.push(next).drop_last() =~= found);
    assert(found.push(next).last() == next);
}

/// A list is newest first where no session stands before one with a later name.
pub proof fn the_newest_comes_first(sessions: Seq<SummaryView>, i: int, j: int)
    requires
        newest_first(sessions),
        0 <= i < j < sessions.len(),
    ensures
        sessions[i].id == sessions[j].id || before(sessions[j].id, sessions[i].id),
{
    before_is_an_order(sessions[i].id, sessions[j].id, sessions[i].id);
}

/// A path goes on behind one slash.
pub proof fn a_path_goes_on_behind_one_slash(dir: Seq<char>, part: Seq<char>)
    ensures
        dir.len() == 0 ==> joined_path(dir, part) == part,
        dir.len() > 0 && dir.last() == '/' ==> joined_path(dir, part) == dir + part,
        dir.len() > 0 && dir.last() != '/' ==> joined_path(dir, part) == dir + seq!['/'] + part,
{
    if dir.len() == 0 {
        assert(dir + part =~= part);
    } else if dir.last() != '/' {
        assert(dir.push('/') + part =~= dir + seq!['/'] + part);
    }
}

/// A directory is a take where it is called so and a number that fits follows, and the
/// number is the take's.
pub proof fn a_take_is_told_by_its_name(name: Seq<char>, digits: Seq<char>)
    ensures
        number_of(digits) matches Some(n) ==> n <= u32::MAX ==> take_number("take-"@ + digits)
            == Some(n as u32),
        number_of(digits) is None ==> take_number("take-"@ + digits) is None,
        take_number(name) matches Some(n) ==> {
            &&& name.len() >= 5
            &&& name.take(5) == "take-"@
            &&& number_of(name.skip(5)) == Some(n as nat)
        },
{
    reveal_strlit("take-");
    let full = "take-"@ + digits;
    assert(full.take(5) =~= "take-"@);
    assert(full.skip(5) =~= digits);
}

/// The takes of a session are the directories called so whose manifest reads, each
/// under its own number. The later take goes first.
pub proof fn the_takes_are_those_that_read(
    entries: Seq<(String, Option<TakeInfo>)>,
    name: String,
    info: Option<TakeInfo>,
    a: TakeInfo,
    b: TakeInfo,
)
    ensures
        readable_takes(Seq::empty()).len() == 0,
        ({
            let more = readable_takes(entries.push((name, info)));
            match (take_number(name@), info) {
                (Some(n), Some(take)) => {
                    &&& more.len() == readable_takes(entries).len() + 1
                    &&& more.drop_last() == readable_takes(entries)
                    &&& more.last().take == n
                    &&& more.last() == (TakeInfo { take: n, ..take })
                },
                _ => more == readable_takes(entries),
            }
        }),
        a.take > b.take ==> a.rank() < b.rank(),
        a.take == b.take ==> a.rank() == b.rank(),
{
    let all = entries.push((name, info));
    assert(all.drop_last() =~= entries);
    assert(all.last() == (name, info));
    let more = readable_takes(all);
    if take_number(name@) is Some && info is Some {
        assert(more.drop_last() =~= readable_takes(entries));
    }
}

/// What is sorted stands in the order of the ranks, and items of one rank stand as
/// they stood.
pub proof fn what_is_sorted_rises<T: Ranked>(items: Seq<T>, sorted: Seq<T>, i: int, j: int)
    requires
        sorts(items, sorted),
        0 <= i < j < sorted.len(),
    ensures
        sorted[i].rank() <= sorted[j].rank(),
        sorted.filter(|item: T| item.rank() == sorted[i].rank()) == items.filter(
            |item: T| item.rank() == sorted[i].rank(),
        ),
{
    let rank = sorted[i].rank();
    assert(at_rank(sorted, rank) == at_rank(items, rank));
    assert(holds::<T>(rank) =~= (|item: T| item.rank() == rank));
}

/// A track is damaged where samples were dropped, a write failed or its thread died.
/// One whose thread died is listed as empty.
pub proof fn when_a_track_is_damaged(manifest: TrackManifest, failed: bool, spec: TakeTrackSpec)
    ensures
        is_damaged(TrackOutcome::Finished(manifest, failed)) <==> manifest.dropped_samples > 0
            || failed,
        is_damaged(TrackOutcome::Lost(spec)),
        entry_of(TrackOutcome::Finished(manifest, failed)) == manifest,
        ({
            let entry = entry_of(TrackOutcome::Lost(spec));
            &&& entry.file == spec.file
            &&& entry.channels == spec.channels
            &&& entry.strip_id == spec.strip_id
            &&& entry.frames == 0
            &&& entry.dropped_samples == 0
        }),
{
}

/// What was played in a slot is what was captured there, in order.
pub proof fn what_a_slot_played(events: Seq<CapturedMidi>, slot: u16)
    ensures
        played(events, slot) == events.filter(|event: CapturedMidi| event.instrument == slot),
{
    assert(from_slot(slot) =~= (|event: CapturedMidi| event.instrument == slot));
}

/// An instrument's file is called by its slot, counted from one in two digits, and its
/// name, and holds what the slot played.
pub proof fn an_instruments_file(
    voice: (u16, String),
    events: Seq<CapturedMidi>,
    sample_rate: int,
    dropped: u64,
)
    ensures
        sidecar_name(voice.0, voice.1@) == "inst"@ + padded((voice.0 + 1) as nat, 2) + "-"@ + slug(
            voice.1@,
        ) + ".mid"@,
        ({
            let file = sidecar_of(voice, events, sample_rate, dropped);
            let notes = events.filter(|event: CapturedMidi| event.instrument == voice.0);
            &&& file.file == sidecar_name(voice.0, voice.1@)
            &&& file.name == voice.1@
            &&& file.events == notes.len()
            &&& file.dropped_events == dropped
            &&& file.bytes == smf(voice.1@, sample_rate, notes)
        }),
{
    what_a_slot_played(events, voice.0);
}

/// Every instrument that played gets one file, the first time its slot is named, and
/// one that did not play gets none.
pub proof fn every_instrument_that_played_gets_a_file(
    voices: Seq<(u16, String)>,
    events: Seq<CapturedMidi>,
    sample_rate: int,
    dropped: u64,
    n: int,
)
    requires
        0 <= n < voices.len(),
    ensures
        sidecars_of(voices, events, sample_rate, dropped, 0).len() == 0,
        ({
            let some = exists|k: int|
                0 <= k < events.len() && (#[trigger] events[k]).instrument == voices[n].0;
            let again = exists|k: int| 0 <= k < n && (#[trigger] voices[k]).0 == voices[n].0;
            let earlier = sidecars_of(voices, events, sample_rate, dropped, n);
            let now = sidecars_of(voices, events, sample_rate, dropped, n + 1);
            &&& some && !again ==> now == earlier.push(
                sidecar_of(voices[n], events, sample_rate, dropped),
            )
            &&& !some || again ==> now == earlier
        }),
{
    let slot = voices[n].0;
    let from = filter_origins(events, from_slot(slot));
    if exists|k: int| 0 <= k < events.len() && (#[trigger] events[k]).instrument == slot {
        let k = choose|k: int| 0 <= k < events.len() && (#[trigger] events[k]).instrument == slot;
        assert(from_slot(slot)(events[k]));
        assert(from.contains(k));
        assert(from.len() > 0);
    }
    if played(events, slot).len() > 0 {
        assert(from_slot(slot)(events[from[0]]));
        assert(events[from[0]].instrument == slot);
    }
}

/// A take without a loop is fed from its start, frame by frame. With one, it is fed up
/// to the loop's end and then from the loop's start, over and over. A start behind the
/// end of a loop begins at the loop's start.
pub proof fn a_take_is_fed_from_its_start(start: int, end: int, again: int, n: int)
    requires
        0 <= n,
        again < end,
    ensures
        walk(start, end, None, n) == start + n,
        start < end && n < end - start ==> walk(start, end, Some(again), n) == start + n,
        start < end && n == end - start ==> walk(start, end, Some(again), n) == again,
        start >= end ==> walk(start, end, Some(again), 0) == again,
        start < end ==> lead(start, end) == end - start,
        start >= end ==> lead(start, end) == 0,
        n >= lead(start, end) ==> walk(start, end, Some(again), n + (end - again)) == walk(
            start,
            end,
            Some(again),
            n,
        ),
{
    let span = end - again;
    let k = n - lead(start, end);
    if k >= 0 {
        lemma_mod_add_multiples_vanish(k, span);
        assert((span + k) % span == k % span);
        assert(k + span == span + k);
    }
    lemma_small_mod(0, span as nat);
}

/// A take ends where its loop does, and at its last frame where it has none.
pub proof fn where_a_take_ends(total_frames: u64, again: u64, end: u64)
    ensures
        end_of(total_frames, None) == total_frames,
        end_of(total_frames, Some((again, end))) == end,
        loop_start(None) is None,
        loop_start(Some((again, end))) == Some(again as int),
{
}

/// A frame that is heard is what the file gave, channel by channel, with silence for
/// what it did not give. One that is not heard is silent. A channel that gave nothing
/// means that the file broke off.
pub proof fn a_frame_is_what_the_file_gave(got: Seq<Option<Single>>, channels: nat, c: int)
    requires
        0 <= c < channels,
    ensures
        frame_of(got, true, channels).len() == channels,
        frame_of(got, false, channels).len() == channels,
        got[c] matches Some(sample) ==> frame_of(got, true, channels)[c] == sample,
        got[c] is None ==> frame_of(got, true, channels)[c].bits == 0,
        frame_of(got, false, channels)[c].bits == 0,
        c < got.len() && got[c] is None ==> broke(got),
        (forall|k: int| 0 <= k < got.len() ==> (#[trigger] got[k]) is Some) ==> !broke(got),
{
}

/// A file is the track that was recorded where its channels, its rate and its depth
/// are, and it holds floats exactly where the format does.
pub proof fn when_a_file_is_the_track(
    found: FileSpec,
    channels: u16,
    sample_rate: u32,
    format: RecordFormat,
)
    ensures
        agrees(found, channels, sample_rate, format) ==> {
            &&& found.channels == channels
            &&& found.sample_rate == sample_rate
            &&& found.bits == format.depth()
            &&& format == RecordFormat::Wav32Float ==> found.float
            &&& format == RecordFormat::Wav16 || format == RecordFormat::Wav24 ==> !found.float
        },
        found.channels == channels && found.sample_rate == sample_rate && found.bits
            == format.depth() && (format == RecordFormat::Flac16 || format == RecordFormat::Flac24
            || (found.float <==> format == RecordFormat::Wav32Float)) ==> agrees(
            found,
            channels,
            sample_rate,
            format,
        ),
{
}

/// The depth of each format, and which of them are FLAC.
pub proof fn the_formats()
    ensures
        RecordFormat::Wav16.depth() == 16 && !RecordFormat::Wav16.flac(),
        RecordFormat::Wav24.depth() == 24 && !RecordFormat::Wav24.flac(),
        RecordFormat::Wav32Float.depth() == 32 && !RecordFormat::Wav32Float.flac(),
        RecordFormat::Flac16.depth() == 16 && RecordFormat::Flac16.flac(),
        RecordFormat::Flac24.depth() == 24 && RecordFormat::Flac24.flac(),
{
}

} // verus!
