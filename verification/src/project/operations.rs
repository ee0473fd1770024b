//! What the operations on sessions, takes and tracks are for.

use vstd::prelude::*;

use crate::bytes::be16;
use crate::console::instrument::CapturedMidi;
use crate::console::mix::MixerState;
use crate::engine::ring::RingRx;
use crate::engine::ring::RingTx;
use crate::project::contents::a_parent_is_what_stands_before_the_name;
use crate::project::contents::the_newest_comes_first;
use crate::project::contents::what_is_sorted_rises;
use crate::project::flac::frame_says;
use crate::project::flac::samples_to_skip;
use crate::project::flac::FlacError;
use crate::project::flac::FlacTrackEncoder;
use crate::project::flac::SampleFeed;
use crate::project::format::RecordFormat;
use crate::project::headers::file_at;
use crate::project::headers::names_odd_rate;
use crate::project::headers::odd_from;
use crate::project::headers::wrapped_from;
use crate::project::midi::build_smf;
use crate::project::midi::chunk_bytes;
use crate::project::midi::sample_of;
use crate::project::midi::tick_of;
use crate::project::midi::ticks_map_back;
use crate::project::midi::track_bytes;
use crate::project::midi::vlq;
use crate::project::midi::vlq_lead;
use crate::project::midi::write_vlq;
use crate::project::naming::alphanumeric;
use crate::project::naming::file_slug;
use crate::project::naming::lowered;
use crate::project::notes::drain_notes;
use crate::project::notes::sidecars;
use crate::project::notes::write_sidecars;
use crate::project::notes::MidiSink;
use crate::project::notes::MidiTrackReport;
use crate::project::notes::Sidecar;
use crate::project::order::sort;
use crate::project::order::Ranked;
use crate::project::peaks::a_sidecar_reads_back;
use crate::project::peaks::extent;
use crate::project::peaks::header_bytes;
use crate::project::peaks::pair_bytes;
use crate::project::peaks::pairs_bytes;
use crate::project::peaks::read_sidecar;
use crate::project::peaks::write_header;
use crate::project::peaks::write_pair;
use crate::project::peaks::PeakAccum;
use crate::project::reader::matches_manifest;
use crate::project::reader::seek_target;
use crate::project::reader::FeedStep;
use crate::project::reader::FileSpec;
use crate::project::reader::PlaybackSource;
use crate::project::reader::TrackFeeder;
use crate::project::session::check_id;
use crate::project::session::has_control;
use crate::project::session::parent_of;
use crate::project::session::resolve;
use crate::project::session::validate_name;
use crate::project::session::ProjectError;
use crate::project::session::SessionDir;
use crate::project::sessions::create_project;
use crate::project::sessions::is_latest;
use crate::project::sessions::list_sessions;
use crate::project::sessions::load_latest;
use crate::project::sessions::manifest;
use crate::project::sessions::none_reads;
use crate::project::sessions::open_session;
use crate::project::sessions::rename_session;
use crate::project::sessions::FoundDir;
use crate::project::sessions::ProjectManifest;
use crate::project::sessions::SessionSummary;
use crate::project::sidecar::encode;
use crate::project::sidecar::events_of;
use crate::project::sidecar::ChannelMessage;
use crate::project::sidecar::MidiReadError;
use crate::project::sidecar::SidecarEvent;
use crate::project::sidecar::SmfFile;
use crate::project::takes::a_take_name_tells_its_number;
use crate::project::takes::count_takes;
use crate::project::takes::join_path;
use crate::project::takes::list_takes;
use crate::project::takes::name_of_take;
use crate::project::takes::number_of_take;
use crate::project::takes::readable_takes;
use crate::project::takes::take_name;
use crate::project::takes::take_number;
use crate::project::takes::Project;
use crate::project::takes::TakeInfo;
use crate::project::wire::the_extent_holds_every_sample;
use crate::project::writer::take_manifest;
use crate::project::writer::ActiveTrack;
use crate::project::writer::PeakBatch;
use crate::project::writer::TakeManifest;
use crate::project::writer::TrackManifest;
use crate::project::writer::TrackOutcome;
use crate::project::writer::TrackSink;
use crate::seqs::views;
use crate::single::Single;
use crate::text::before;
use crate::text::before_is_an_order;
use crate::text::is_control;
use crate::text::trimmed;

verus! {

/// A take's name gives back its number.
pub proof fn naming_a_take_and_reading_it_back(
    take: u32,
    name: String,
    text: &str,
    number: Option<u32>,
)
    requires
        call_ensures(name_of_take, (take,), name),
        call_ensures(number_of_take, (text,), number),
        text@ == name@,
    ensures
        number == Some(take),
{
    a_take_name_tells_its_number(take);
}

/// The next take comes behind every take there is, and not later than it has to. The
/// first is 1.
pub proof fn the_next_take_is_new(project: &Project, names: &Vec<String>, next: u32, i: int)
    requires
        call_ensures(Project::next_take, (project, names), next),
        0 <= i < names@.len(),
    ensures
        next >= 1,
        take_number(names@[i]@) matches Some(n) ==> n < next,
        next > 1 ==> exists|k: int|
            0 <= k < names@.len() && take_number((#[trigger] names@[k])@)
                == Some((next - 1) as u32),
{
}

/// The takes are listed with the latest first.
pub proof fn takes_are_listed_latest_first(
    entries: Vec<(String, Option<TakeInfo>)>,
    takes: Vec<TakeInfo>,
    i: int,
    j: int,
)
    requires
        call_ensures(list_takes, (entries,), takes),
        0 <= i < j < takes@.len(),
    ensures
        takes@[i].take >= takes@[j].take,
{
    what_is_sorted_rises(
        readable_takes(entries@),
        takes@,
        i,
        j,
    );
}

/// Sorting puts the lower rank first, and leaves items of one rank as they stood.
pub proof fn sorting_puts_the_lower_rank_first<T: Ranked>(
    items: Vec<T>,
    sorted: Vec<T>,
    i: int,
    j: int,
)
    requires
        call_ensures(sort::<T>, (items,), sorted),
        0 <= i < j < sorted@.len(),
    ensures
        sorted@[i].rank() <= sorted@[j].rank(),
        sorted@.filter(|item: T| item.rank() == sorted@[i].rank()) == items@.filter(
            |item: T| item.rank() == sorted@[i].rank(),
        ),
{
    what_is_sorted_rises(items@, sorted@, i, j);
}

/// As many takes count as there are manifests.
pub proof fn takes_count_by_their_manifests(manifests: &Vec<bool>, count: usize)
    requires
        call_ensures(count_takes, (manifests,), count),
    ensures
        count <= manifests@.len(),
        (forall|i: int| 0 <= i < manifests@.len() ==> !(#[trigger] manifests@[i])) ==> count == 0,
        (forall|i: int| 0 <= i < manifests@.len() ==> #[trigger] manifests@[i]) ==> count
            == manifests@.len(),
{
    lemma_count(manifests@);
}

proof fn lemma_count(flags: Seq<bool>)
    ensures
        flags.filter(|there: bool| there).len() <= flags.len(),
        (forall|i: int| 0 <= i < flags.len() ==> !(#[trigger] flags[i])) ==> flags.filter(
            |there: bool| there,
        ).len() == 0,
        (forall|i: int| 0 <= i < flags.len() ==> #[trigger] flags[i]) ==> flags.filter(
            |there: bool| there,
        ).len() == flags.len(),
    decreases flags.len(),
{
    reveal(Seq::filter);
    if flags.len() > 0 {
        let rest = flags.drop_last();
        lemma_count(rest);
        assert forall|i: int| 0 <= i < rest.len() implies rest[i] == flags[i] by {}
        assert(flags.last() == flags[flags.len() - 1]);
        if forall|i: int| 0 <= i < flags.len() ==> !(#[trigger] flags[i]) {
            assert forall|i: int| 0 <= i < rest.len() implies !(#[trigger] rest[i]) by {
                assert(!flags[i]);
            }
        }
        if forall|i: int| 0 <= i < flags.len() ==> #[trigger] flags[i] {
            assert forall|i: int| 0 <= i < rest.len() implies #[trigger] rest[i] by {
                assert(flags[i]);
            }
        }
    }
}

/// A session that is created holds the given desk and second, under the name without
/// the white space around it, and renaming changes the name alone.
pub proof fn creating_and_renaming_a_session(
    root: &str,
    name: &str,
    state: MixerState,
    created: u64,
    made: Result<(Project, ProjectManifest), ProjectError>,
    new_name: &str,
    renamed: Result<ProjectManifest, ProjectError>,
)
    requires
        call_ensures(create_project, (root, name, state, created), made),
        made is Ok,
        call_ensures(rename_session, (made->Ok_0.1, new_name), renamed),
    ensures
        made->Ok_0.1.name@ == trimmed(name@),
        made->Ok_0.1.created_at_unix == created,
        made->Ok_0.1.mixer == state,
        made->Ok_0.0.name@ == trimmed(name@),
        0 < trimmed(name@).len() <= 64,
        renamed matches Ok(written) ==> {
            &&& written.name@ == trimmed(new_name@)
            &&& written.created_at_unix == created
            &&& written.mixer == state
            &&& written.schema_version == 1
        },
        0 < trimmed(new_name@).len() <= 64 && (forall|i: int|
            0 <= i < trimmed(new_name@).len() ==> '\u{20}' <= #[trigger] trimmed(new_name@)[i]
                <= '~') ==> renamed is Ok,
        trimmed(new_name@).len() == 0 || trimmed(new_name@).len() > 64 ==> renamed is Err,
{
    let kept = trimmed(new_name@);
    if forall|i: int| 0 <= i < kept.len() ==> '\u{20}' <= #[trigger] kept[i] <= '~' {
        if has_control(kept) {
            let i = choose|i: int|
                0 <= i < kept.len() && is_control(#[trigger] kept[i]);
            assert('\u{20}' <= kept[i] <= '~');
        }
    }
}

/// A name that is valid is kept without the white space around it.
pub proof fn a_valid_name_is_trimmed(name: &str, valid: Result<&str, ProjectError>)
    requires
        call_ensures(validate_name, (name,), valid),
    ensures
        valid matches Ok(kept) ==> kept@ == trimmed(name@) && 0 < kept@.len() <= 64,
        valid matches Err(e) ==> e is BadName,
        trimmed(name@).len() == 0 || trimmed(name@).len() > 64 ==> valid is Err,
{
}

/// A session is opened as it lies there.
pub proof fn opening_a_session(
    dir: &SessionDir,
    found: ProjectManifest,
    opened: (Project, ProjectManifest),
)
    requires
        call_ensures(open_session, (dir, found), opened),
    ensures
        opened.0.dir@ == dir.at(),
        opened.0.name@ == found.name@,
        opened.1 == found,
{
}

/// An id with a slash, an empty one and one that leads up are refused, before anything
/// else is looked at. A directory elsewhere than under the root, or without a
/// manifest, is no session.
pub proof fn only_what_lies_under_the_root_is_opened(
    root: &Option<String>,
    dir: Option<String>,
    has_manifest: bool,
    id: &str,
    resolved: Result<SessionDir, ProjectError>,
    checked: Result<(), ProjectError>,
)
    requires
        call_ensures(resolve, (root, dir, has_manifest, id), resolved),
        call_ensures(check_id, (id,), checked),
    ensures
        resolved is Ok ==> checked is Ok && has_manifest && root is Some && dir is Some,
        resolved matches Ok(session) ==> session.at() == dir->0@,
        id@.len() == 0 || id@.contains('/') || id@ == "."@ || id@ == ".."@ ==> {
            &&& checked matches Err(e) && e is BadId
            &&& resolved matches Err(e) && e is BadId
        },
        checked is Ok && !has_manifest ==> (resolved matches Err(e) && e is NotASession),
{
}

/// The sessions are listed with the newest first, and only those that read.
pub proof fn sessions_are_listed_newest_first(
    found: Vec<FoundDir>,
    sessions: Vec<SessionSummary>,
    i: int,
    j: int,
)
    requires
        call_ensures(list_sessions, (found,), sessions),
        0 <= i < j < sessions@.len(),
    ensures
        sessions@[i].id@ == sessions@[j].id@ || before(sessions@[j].id@, sessions@[i].id@),
{
    let listed = views(sessions@);
    the_newest_comes_first(listed, i, j);
    assert(listed[i] == sessions@[i]@ && listed[j] == sessions@[j]@);
}

/// The latest session is one that reads, and none that reads comes behind it.
pub proof fn the_latest_session_is_the_last(found: &Vec<FoundDir>, latest: usize, k: int)
    requires
        call_ensures(load_latest, (found,), Some(latest)),
        0 <= k < found@.len(),
        found@[k].manifest is Some,
    ensures
        latest < found@.len(),
        found@[latest as int].manifest is Some,
        found@[latest as int].id@ == found@[k].id@ || before(
            found@[k].id@,
            found@[latest as int].id@,
        ),
{
    assert(is_latest(found@, latest as int));
    before_is_an_order(found@[latest as int].id@, found@[k].id@, found@[k].id@);
}

/// A manifest says the desk, its name and its second, in the first schema.
pub proof fn what_a_manifest_says(
    name: &str,
    state: MixerState,
    created: u64,
    written: ProjectManifest,
)
    requires
        call_ensures(manifest, (name, state, created), written),
    ensures
        written.schema_version == 1,
        written.name@ == name@,
        written.created_at_unix == created,
        written.mixer == state,
{
}

/// A path of two parts has one slash between them.
pub proof fn joining_a_path(dir: &str, part: &str, path: String)
    requires
        call_ensures(join_path, (dir, part), path),
        dir@.len() > 0,
        dir@.last() != '/',
    ensures
        path@ == dir@ + seq!['/'] + part@,
{
    assert(dir@.push('/') + part@ =~= dir@ + seq!['/'] + part@);
}

/// A bin is closed with its last sample, and holds the lowest and the highest of what
/// came since the one before.
pub proof fn a_bin_closes_with_its_last_sample(
    accum: &mut PeakAccum,
    sample: Single,
    bin: Option<(Single, Single)>,
)
    requires
        call_ensures(PeakAccum::push, (accum, sample), bin),
        old(accum).wf(),
        old(accum).filled < u32::MAX,
    ensures
        bin is Some <==> old(accum).open().len() + 1 == old(accum).samples_per_bin,
        bin is None ==> final(accum).open() == old(accum).open().push(sample),
        bin matches Some((low, high)) ==> {
            &&& final(accum).open().len() == 0
            &&& !sample.is_nan() ==> low.rank() <= sample.rank() <= high.rank()
            &&& forall|i: int|
                0 <= i < old(accum).open().len() && !(#[trigger] old(accum).open()[i]).is_nan()
                    ==> low.rank() <= old(accum).open()[i].rank() <= high.rank()
        },
{
    let open = old(accum).open().push(sample);
    the_extent_holds_every_sample(open);
    assert(open[open.len() - 1] == sample);
    assert(!sample.is_nan() ==> extent(open).0.rank() <= sample.rank() <= extent(open).1.rank());
    assert forall|i: int|
        0 <= i < old(accum).open().len() && !(#[trigger] old(accum).open()[i]).is_nan() implies extent(
        open,
    ).0.rank() <= old(accum).open()[i].rank() <= extent(open).1.rank() by {
        assert(open[i] == old(accum).open()[i]);
    }
}

/// A new accumulation is empty, with 512 samples to the bin for every channel.
pub proof fn bins_take_512_samples_a_channel(channels: u16, accum: PeakAccum)
    requires
        call_ensures(PeakAccum::new, (channels,), accum),
    ensures
        accum.samples_per_bin == 512 * channels,
        accum.open().len() == 0,
{
}

/// A file of peaks that was written reads back.
pub proof fn a_peak_file_reads_back(
    head: &mut Vec<u8>,
    out: &mut Vec<u8>,
    pair: (i16, i16),
    read: Option<(u32, Vec<(i16, i16)>)>,
)
    requires
        call_ensures(write_header, (head,), ()),
        old(head)@.len() == 0,
        call_ensures(write_pair, (out, pair), ()),
        old(out)@ == final(head)@,
        call_ensures(read_sidecar, (&*final(out),), read),
    ensures
        read matches Some((per_bin, pairs)) && per_bin == 512 && pairs@ == seq![pair],
{
    reveal_with_fuel(pairs_bytes, 2);
    let pairs = seq![pair];
    assert(pairs.drop_last() =~= Seq::<(i16, i16)>::empty());
    assert(pairs_bytes(pairs) =~= pair_bytes(pair));
    assert(final(out)@ =~= header_bytes() + pairs_bytes(pairs) + Seq::<u8>::empty());
    a_sidecar_reads_back(pairs, Seq::empty());
}

/// A track that was finished says how many frames were written, what was made up for
/// with silence, and whether a write failed.
pub proof fn what_a_finished_track_says(
    track: ActiveTrack,
    finalized: bool,
    outcome: (TrackManifest, bool),
)
    requires
        call_ensures(ActiveTrack::finish, (track, finalized), outcome),
        track.spec.channels > 0,
    ensures
        outcome.0.file == track.spec.file,
        outcome.0.channels == track.spec.channels,
        outcome.0.strip_id == track.spec.strip_id,
        outcome.0.frames * track.spec.channels <= track.written_samples < (outcome.0.frames + 1)
            * track.spec.channels,
        outcome.0.dropped_samples == track.silenced_samples,
        outcome.1 <==> track.write_failed || !finalized,
{
    let w = track.spec.channels as int;
    let n = track.written_samples as int / w;
    assert(n * w <= track.written_samples < (n + 1) * w) by (nonlinear_arith)
        requires
            n == track.written_samples as int / w,
            w > 0,
    ;
}

/// What was lost since the last look is made up for with silence, once.
pub proof fn what_was_lost_is_made_up_for_once(
    track: &mut ActiveTrack,
    taken: Vec<Single>,
    lost: u64,
    samples: Vec<Single>,
)
    requires
        call_ensures(ActiveTrack::repair, (track, taken, lost), samples),
    ensures
        lost <= old(track).silenced_samples ==> samples@ == taken@ && final(track).silenced_samples
            == old(track).silenced_samples,
        lost > old(track).silenced_samples ==> {
            &&& samples@.len() == taken@.len() + (lost - old(track).silenced_samples)
            &&& samples@.take(taken@.len() as int) == taken@
            &&& forall|i: int|
                taken@.len() <= i < samples@.len() ==> (#[trigger] samples@[i]).bits == 0
            &&& final(track).silenced_samples == lost
        },
        final(track).written_samples == old(track).written_samples,
{
    if lost <= old(track).silenced_samples {
        assert(samples@ =~= taken@);
    } else {
        assert(samples@.take(taken@.len() as int) =~= taken@);
    }
}

/// A sample that is written counts, and a write that did not land is remembered.
pub proof fn a_written_sample_counts(
    track: &mut ActiveTrack,
    sample: Single,
    landed: bool,
    bin: Option<(Single, Single)>,
)
    requires
        call_ensures(ActiveTrack::write, (track, sample, landed), bin),
        old(track).written_samples < u64::MAX,
    ensures
        final(track).written_samples == old(track).written_samples + 1,
        final(track).write_failed <==> old(track).write_failed || !landed,
        final(track).silenced_samples == old(track).silenced_samples,
{
}

/// The bins that were closed go out in pairs, lowest first, and are counted. Where
/// nobody listens they are dropped.
pub proof fn closed_bins_go_out(
    track: &mut ActiveTrack,
    pair: (i16, i16),
    later: &mut ActiveTrack,
    index: usize,
    tapped: bool,
    batch: Option<PeakBatch>,
)
    requires
        call_ensures(ActiveTrack::close_bin, (track, pair), ()),
        old(track).pending_bins@.len() == 0,
        call_ensures(ActiveTrack::send_bins, (later, index, tapped), batch),
        *old(later) == *final(track),
    ensures
        tapped ==> (batch matches Some(sent) && sent.track == index && sent.start_bin == old(
            track,
        ).bins_emitted && sent.bins@ == seq![pair.0, pair.1]),
        tapped ==> final(later).bins_emitted == old(track).bins_emitted + 1,
        !tapped ==> batch is None,
        final(later).pending_bins@.len() == 0,
{
    assert(final(track).pending_bins@ =~= seq![pair.0, pair.1]);
}

/// A new track has written nothing and lost nothing.
pub proof fn a_new_track_has_written_nothing(sink: TrackSink, track: ActiveTrack)
    requires
        call_ensures(ActiveTrack::new, (sink,), track),
    ensures
        track.spec == sink.spec,
        track.written_samples == 0,
        track.silenced_samples == 0,
        !track.write_failed,
        track.bins_emitted == 0,
{
}

/// A take's manifest lists every track in order, and says that it is damaged where one
/// of them is.
pub proof fn what_a_takes_manifest_says(
    started_at_unix: u64,
    sample_rate: u32,
    format: RecordFormat,
    outcomes: Vec<TrackOutcome>,
    midi_tracks: Vec<MidiTrackReport>,
    written: TakeManifest,
    i: int,
)
    requires
        call_ensures(
            take_manifest,
            (started_at_unix, sample_rate, format, outcomes, midi_tracks),
            written,
        ),
        0 <= i < outcomes@.len(),
    ensures
        written.schema_version == 1,
        written.started_at_unix == started_at_unix,
        written.sample_rate == sample_rate,
        written.format == format,
        written.midi_tracks == midi_tracks,
        written.tracks@.len() == outcomes@.len(),
        outcomes@[i] matches TrackOutcome::Finished(track, failed) ==> {
            &&& written.tracks@[i] == track
            &&& failed || track.dropped_samples > 0 ==> written.damaged
        },
        outcomes@[i] matches TrackOutcome::Lost(spec) ==> {
            &&& written.damaged
            &&& written.tracks@[i].file == spec.file
            &&& written.tracks@[i].frames == 0
        },
        (forall|k: int|
            0 <= k < outcomes@.len() ==> ((#[trigger] outcomes@[k]) matches TrackOutcome::Finished(
                track,
                failed,
            ) && !failed && track.dropped_samples == 0)) ==> !written.damaged,
{
    assert(outcomes@[i] == outcomes@[i]);
}

/// A take is played to the end of its loop, or to its end.
pub proof fn where_playing_ends(source: &PlaybackSource, end: u64, channels: u16, samples: u64)
    requires
        call_ensures(PlaybackSource::end, (source,), end),
        call_ensures(PlaybackSource::ring_samples, (source, channels), samples),
    ensures
        source.loop_region is None ==> end == source.total_frames,
        source.loop_region matches Some((again, last)) ==> end == last,
        samples == 4 * source.sample_rate * channels,
{
}

/// A file is sought no further than it is long, and a WAV file no further than 32 bits
/// reach.
pub proof fn how_far_a_file_is_sought(
    start: u64,
    frames: u64,
    format: RecordFormat,
    target: Option<u64>,
)
    requires
        call_ensures(seek_target, (start, frames, format), target),
    ensures
        target matches Some(at) ==> at <= frames && at <= start && (at == start || at == frames),
        format == RecordFormat::Flac16 || format == RecordFormat::Flac24 ==> target is Some,
        start <= u32::MAX ==> target is Some,
        start > u32::MAX && frames > u32::MAX && (format == RecordFormat::Wav16 || format
            == RecordFormat::Wav24 || format == RecordFormat::Wav32Float) ==> target is None,
{
}

/// A file is taken for the track only where everything the manifest says of it holds.
pub proof fn a_file_is_held_to_its_manifest(
    found: FileSpec,
    channels: u16,
    sample_rate: u32,
    format: RecordFormat,
    matched: bool,
)
    requires
        call_ensures(matches_manifest, (found, channels, sample_rate, format), matched),
        matched,
    ensures
        found.channels == channels,
        found.sample_rate == sample_rate,
        format == RecordFormat::Wav16 ==> found.bits == 16 && !found.float,
        format == RecordFormat::Wav24 ==> found.bits == 24 && !found.float,
        format == RecordFormat::Wav32Float ==> found.bits == 32 && found.float,
        format == RecordFormat::Flac16 ==> found.bits == 16,
        format == RecordFormat::Flac24 ==> found.bits == 24,
{
}

/// A feeder starts at its start, feeds one frame at a time, and goes on behind it.
pub proof fn a_feeder_goes_on_frame_by_frame(
    channels: u16,
    frames: u64,
    tx: RingTx<Single>,
    start: u64,
    end: u64,
    loop_region: Option<(u64, u64)>,
    feeder: TrackFeeder,
    running: &mut TrackFeeder,
    got: &Vec<Option<Single>>,
    whole: bool,
)
    requires
        call_ensures(
            TrackFeeder::new,
            (channels, frames, tx, start, end, loop_region),
            feeder,
        ),
        call_ensures(TrackFeeder::feed, (running, got), whole),
        *old(running) == feeder,
        channels > 0,
    ensures
        feeder.pos == start,
        final(running).pos == start + 1,
        final(running).fed() == seq![start as int],
{
    assert(final(running).fed() =~= seq![start as int]);
}

/// At its end a take without a loop is finished, and one with a loop goes on at the
/// loop's start. Before its end it waits.
pub proof fn what_comes_at_the_end(
    feeder: &TrackFeeder,
    space: usize,
    count: usize,
    step: FeedStep,
)
    requires
        call_ensures(TrackFeeder::after, (feeder, space, count), step),
    ensures
        feeder.pos < feeder.end ==> step == FeedStep::Rest,
        feeder.pos >= feeder.end && feeder.loop_region is None ==> step == FeedStep::Finished,
        feeder.pos >= feeder.end ==> (feeder.loop_region matches Some((again, _))
            ==> (step matches FeedStep::Reopen { at, rest } && at == again && (rest <==> count == 0
            && space == 0))),
{
}

/// As many frames are read as the ring has room for, and no more than are left.
pub proof fn no_more_is_read_than_fits(feeder: &TrackFeeder, slots: usize, plan: (usize, usize))
    requires
        call_ensures(TrackFeeder::plan_for, (feeder, slots), plan),
        feeder.channels > 0,
    ensures
        plan.0 * feeder.channels <= slots,
        slots < (plan.0 + 1) * feeder.channels,
        plan.1 <= plan.0,
        feeder.pos < feeder.end ==> feeder.pos + plan.1 <= feeder.end,
        feeder.pos >= feeder.end ==> plan.1 == 0,
        feeder.pos < feeder.end ==> plan.1 == plan.0 || feeder.pos + plan.1 == feeder.end,
{
    let w = feeder.channels as int;
    let n = slots as int / w;
    assert(n * w <= slots < (n + 1) * w) by (nonlinear_arith)
        requires
            n == slots as int / w,
            w > 0,
    ;
}

/// What lies between where a seek landed and where it was to land is skipped.
pub proof fn what_a_seek_skips(target: u64, landed: i64, channels: u16, skip: u128)
    requires
        call_ensures(samples_to_skip, (target, landed, channels), skip),
    ensures
        landed >= 0 && target >= landed ==> skip == (target - landed) * channels,
        landed >= 0 && target < landed ==> skip == 0,
        landed < 0 ==> skip == target * channels,
{
    let at = if landed > 0 {
        landed as int
    } else {
        0
    };
    let gap = target - at;
    assert(skip == if target > at {
        gap * channels
    } else {
        0
    });
    assert(0 * channels == 0);
    if landed >= 0 {
        assert(at == landed);
        assert(gap == target - landed);
    } else {
        assert(gap == target);
    }
}

/// A feed drops what it was told to and then gives what was loaded, in order.
pub proof fn a_feed_drops_then_gives(
    skip: u128,
    feed: SampleFeed,
    loading: &mut SampleFeed,
    samples: Vec<Single>,
    giving: &mut SampleFeed,
    sample: Option<Single>,
)
    requires
        call_ensures(SampleFeed::new, (skip,), feed),
        call_ensures(SampleFeed::load, (loading, samples), ()),
        *old(loading) == feed,
        call_ensures(SampleFeed::next, (giving,), sample),
        *old(giving) == *final(loading),
    ensures
        sample is Some <==> skip < samples@.len(),
        sample matches Some(x) ==> x == samples@[skip as int],
{
    assert(Seq::<Single>::empty() + samples@ =~= samples@);
}

/// A tick and back loses less than a tick.
pub proof fn a_tick_and_back(sample: u64, sample_rate: u32, tick: u64, back: u64)
    requires
        call_ensures(tick_of, (sample, sample_rate), tick),
        call_ensures(sample_of, (tick, 500_000u32, 480u16, sample_rate), back),
        sample_rate > 0,
        sample * 960 / sample_rate as int <= u64::MAX,
    ensures
        back <= sample,
        sample - back <= sample_rate as int / 960 + 1,
{
    ticks_map_back(sample, sample_rate);
}

/// A length is written behind what was written before it.
pub proof fn a_length_is_written_behind(out: &mut Vec<u8>, value: u64)
    requires
        call_ensures(write_vlq, (out, value), ()),
        value < 128,
    ensures
        final(out)@ == old(out)@.push(value as u8),
{
    reveal_with_fuel(vlq_lead, 2);
    assert(value as nat / 128 == 0);
    assert(vlq(value as nat) =~= seq![value as u8]);
    assert(final(out)@ =~= old(out)@.push(value as u8));
}

/// A file of notes begins with its header: one track, 480 ticks to the quarter.
pub proof fn a_file_of_notes_begins_with_its_header(
    name: &str,
    sample_rate: u32,
    events: &[CapturedMidi],
    out: Vec<u8>,
)
    requires
        call_ensures(build_smf, (name, sample_rate, events), out),
    ensures
        out@.len() >= 22,
        out@.subrange(0, 14) == seq![
            'M' as u8,
            'T' as u8,
            'h' as u8,
            'd' as u8,
            0u8,
            0,
            0,
            6,
            0,
            0,
            0,
            1,
            0x01,
            0xE0,
        ],
        out@.subrange(14, 18) == seq!['M' as u8, 'T' as u8, 'r' as u8, 'k' as u8],
{
    reveal_strlit("MThd");
    reveal_strlit("MTrk");
    let track = track_bytes(name@, sample_rate as int, events@);
    let first = chunk_bytes(
        "MThd"@,
        be16(0) + be16(1) + be16(480),
    );
    assert(first =~= seq![
        'M' as u8,
        'T' as u8,
        'h' as u8,
        'd' as u8,
        0u8,
        0,
        0,
        6,
        0,
        0,
        0,
        1,
        0x01,
        0xE0,
    ]);
    let second = chunk_bytes("MTrk"@, track);
    assert(out@ == first + second);
    assert(out@.subrange(0, 14) =~= first);
    assert(out@.subrange(14, 18) =~= second.subrange(0, 4));
    assert(second.subrange(0, 4) =~= seq!['M' as u8, 'T' as u8, 'r' as u8, 'k' as u8]);
}

/// A note on is told by its status, with the key and the velocity behind it.
pub proof fn encoding_a_note(key: u8, velocity: u8, on: (u8, u8, u8), off: (u8, u8, u8))
    requires
        call_ensures(encode, (ChannelMessage::NoteOn(key, velocity),), on),
        call_ensures(encode, (ChannelMessage::NoteOff(key, velocity),), off),
    ensures
        on == (0x90u8, key, velocity),
        off == (0x80u8, key, velocity),
{
}

/// The formats by the file they are written to.
pub proof fn what_a_format_is_called(
    format: RecordFormat,
    ext: &'static str,
    bits: u16,
    float: bool,
    flac: bool,
)
    requires
        call_ensures(RecordFormat::extension, (format,), ext),
        call_ensures(RecordFormat::bits_per_sample, (format,), bits),
        call_ensures(RecordFormat::is_float, (format,), float),
        call_ensures(RecordFormat::is_flac, (format,), flac),
    ensures
        format == RecordFormat::Wav16 ==> ext@ == "wav"@ && bits == 16 && !float && !flac,
        format == RecordFormat::Wav24 ==> ext@ == "wav"@ && bits == 24 && !float && !flac,
        format == RecordFormat::Wav32Float ==> ext@ == "wav"@ && bits == 32 && float && !flac,
        format == RecordFormat::Flac16 ==> ext@ == "flac"@ && bits == 16 && !float && flac,
        format == RecordFormat::Flac24 ==> ext@ == "flac"@ && bits == 24 && !float && flac,
{
}

/// An encoder takes one to eight channels at up to 96 kHz, and begins a file with its
/// mark, one last block of information and no totals.
pub proof fn beginning_a_flac_file(
    channels: u16,
    sample_rate: u32,
    bits: u8,
    made: Result<(FlacTrackEncoder, Vec<u8>), FlacError>,
)
    requires
        call_ensures(FlacTrackEncoder::create, (channels, sample_rate, bits), made),
    ensures
        made is Ok <==> 1 <= channels <= 8 && sample_rate <= 96_000,
        made matches Ok((encoder, head)) ==> {
            &&& encoder.channels == channels
            &&& encoder.sample_rate == sample_rate
            &&& encoder.bits == bits
            &&& encoder.given().len() == 0
            &&& encoder.frames().len() == 0
            &&& encoder.total == 0
            &&& head@.take(4) == seq!['f' as u8, 'L' as u8, 'a' as u8, 'C' as u8]
            &&& head@.subrange(4, 8) == seq![0x80u8, 0, 0, 34]
        },
{
    if let Ok((encoder, head)) = made {
        reveal_strlit("fLaC");
        assert(head@.take(4) =~= seq!['f' as u8, 'L' as u8, 'a' as u8, 'C' as u8]);
        assert(head@.subrange(4, 8) =~= seq![0x80u8, 0, 0, 34]);
    }
}

/// A sample that is given is kept. Every 4096th of each channel closes a frame, which
/// says its number and the samples of its block.
pub proof fn giving_a_sample(
    encoder: &mut FlacTrackEncoder,
    sample: i32,
    frame: Result<Option<Vec<u8>>, FlacError>,
)
    requires
        call_ensures(FlacTrackEncoder::write_sample, (encoder, sample), frame),
    ensures
        final(encoder).given() == old(encoder).given().push(sample),
        frame matches Ok(Some(bytes)) ==> {
            &&& old(encoder).pending@.len() + 1 == 4096 * old(encoder).channels
            &&& frame_says(bytes@, old(encoder).channels, old(encoder).bits) == (
                old(encoder).frame_number as int,
                old(encoder).pending@.push(sample),
            )
            &&& final(encoder).frame_number == old(encoder).frame_number + 1
            &&& final(encoder).total == old(encoder).total + 4096
            &&& final(encoder).pending@.len() == 0
        },
        old(encoder).pending@.len() + 1 != 4096 * old(encoder).channels ==> {
            &&& frame matches Ok(None)
            &&& final(encoder).pending@ == old(encoder).pending@.push(sample)
            &&& final(encoder).frame_number == old(encoder).frame_number
        },
{
}

/// A file that is opened again for its loop goes on at the loop's start, with a reader
/// that has not failed.
pub proof fn going_round_again(feeder: &mut TrackFeeder, frames: u64)
    requires
        call_ensures(TrackFeeder::reopened, (feeder, frames), ()),
        old(feeder).loop_region is Some,
    ensures
        old(feeder).loop_region matches Some((again, _)) ==> final(feeder).pos == again,
        final(feeder).frames == frames,
        !final(feeder).read_failed,
        final(feeder).fed() == old(feeder).fed(),
        final(feeder).end == old(feeder).end,
{
}

/// A frame is heard while the file holds it and has not failed.
pub proof fn when_a_frame_is_heard(feeder: &TrackFeeder, audible: bool)
    requires
        call_ensures(TrackFeeder::is_real, (feeder,), audible),
    ensures
        audible <==> feeder.pos < feeder.frames && !feeder.read_failed,
{
}

/// A session's id is the last part of its path.
pub proof fn a_session_goes_by_its_directory(dir: &SessionDir, path: &str, id: &str, root: Seq<char>)
    requires
        call_ensures(SessionDir::path, (dir,), path),
        call_ensures(SessionDir::id, (dir,), id),
        root.len() > 0,
        path@ == root.push('/') + id@,
        id@.len() > 0,
    ensures
        !id@.contains('/') ==> parent_of(dir.at()) == Some(root),
{
    if !id@.contains('/') {
        assert forall|k: int| 0 <= k < id@.len() implies #[trigger] id@[k] != '/' by {}
        a_parent_is_what_stands_before_the_name(root, id@);
    }
}

/// A take lies in its own directory under the takes of its session.
pub proof fn where_a_take_lies(project: &Project, take: u32, takes: String, dir: String)
    requires
        call_ensures(Project::takes_dir, (project,), takes),
        call_ensures(Project::take_dir, (project, take), dir),
        project.dir@.len() > 0,
        project.dir@.last() != '/',
    ensures
        takes@ == project.dir@ + seq!['/'] + "takes"@,
        dir@ == project.dir@ + seq!['/'] + "takes"@ + seq!['/'] + take_name(take as nat),
{
    reveal_strlit("takes");
    assert(takes@ =~= project.dir@ + seq!['/'] + "takes"@);
    assert(takes@.last() == 's');
    assert(dir@ =~= takes@ + seq!['/'] + take_name(take as nat));
}

/// What a file that cannot be played is refused for. One that can gives its events
/// in the order in which they are heard.
pub proof fn which_note_files_play(
    parsed: Result<SmfFile, String>,
    sample_rate: u32,
    read: Result<Vec<SidecarEvent>, MidiReadError>,
    i: int,
    j: int,
)
    requires
        call_ensures(events_of, (parsed, sample_rate), read),
    ensures
        parsed matches Err(text) ==> read matches Err(MidiReadError::Parse(why)) && why@ == text@,
        parsed matches Ok(file) ==> file.ticks_per_quarter is None ==> (read matches Err(
            MidiReadError::Parse(why),
        ) && why@ == "SMPTE-timed files are not supported"@),
        parsed matches Ok(file) ==> file.ticks_per_quarter is Some && file.tracks@.len() == 0
            ==> (read matches Err(MidiReadError::Parse(why)) && why@
            == "the file has no tracks"@),
        parsed matches Ok(file) ==> file.ticks_per_quarter is Some && file.tracks@.len() > 0
            ==> read is Ok,
        read matches Ok(events) ==> 0 <= i < j < events@.len() ==> events@[i].sample
            <= events@[j].sample,
{
    if let Ok(file) = parsed {
        assert(file.says().tracks.len() == file.tracks@.len());
    }
    if let Ok(events) = read {
        if 0 <= i < j < events@.len() {
            assert(events@[i].rank() <= events@[j].rank());
        }
    }
}

/// A plain file of notes names an odd rate by the fifth byte behind the head of its
/// header. A file that is neither plain nor wrapped names none.
pub proof fn which_headers_are_odd(bytes: &Vec<u8>, odd: bool)
    requires
        call_ensures(names_odd_rate, (bytes,), odd),
    ensures
        bytes@.len() < 8 ==> !odd,
        bytes@.len() >= 8 && bytes@[0] != 0x4D && bytes@[0] != 0x52 ==> !odd,
        bytes@.len() >= 14 && bytes@.take(8) == seq![0x4Du8, 0x54, 0x68, 0x64, 0, 0, 0, 6]
            && bytes@[8] == 0 && bytes@[9] <= 2 && bytes@[12] == 0x80 ==> odd,
        bytes@.len() == 14 && bytes@.take(8) == seq![0x4Du8, 0x54, 0x68, 0x64, 0, 0, 0, 6]
            && bytes@[12] != 0x80 ==> !odd,
        bytes@.len() >= 14 && bytes@.take(8) == seq![0x4Du8, 0x54, 0x68, 0x64, 0, 0, 0, 6] && (
        bytes@[8] != 0 || bytes@[9] > 2) ==> !odd,
{
    reveal_with_fuel(odd_from, 3);
    let head = seq![0x4Du8, 0x54, 0x68, 0x64, 0, 0, 0, 6];
    if bytes@.len() >= 14 && bytes@.take(8) == head {
        assert forall|k: int| 0 <= k < 8 implies bytes@[k] == #[trigger] head[k] by {
            assert(bytes@.take(8)[k] == bytes@[k]);
        }
        assert(bytes@[0] == head[0] && bytes@[1] == head[1] && bytes@[2] == head[2] && bytes@[3]
            == head[3]);
        assert(bytes@[4] == head[4] && bytes@[5] == head[5] && bytes@[6] == head[6] && bytes@[7]
            == head[7]);
    }
}

/// What waits is drained in the order in which it was pushed, until nothing does.
pub proof fn draining_the_notes(rx: &mut RingRx<CapturedMidi>, notes: Vec<CapturedMidi>)
    requires
        call_ensures(drain_notes, (rx,), notes),
    ensures
        final(rx).taken() == old(rx).taken() + notes@,
        notes@.len() < u64::MAX ==> final(rx).misses() == old(rx).misses() + 1,
{
}

/// What a take writes of its notes is what was drained of them, instrument by
/// instrument, with the number that were dropped.
pub proof fn writing_the_notes_of_a_take(
    sample_rate: u32,
    sink: &mut MidiSink,
    out: Option<Vec<Sidecar>>,
    events: &Vec<CapturedMidi>,
    again: Vec<Sidecar>,
)
    requires
        call_ensures(write_sidecars, (sample_rate, sink), out),
        call_ensures(
            sidecars,
            (sample_rate, &old(sink).voices, events, final(sink).dropped.reads().last()),
            again,
        ),
        final(sink).rx.taken() == old(sink).rx.taken() + events@,
        out is Some,
    ensures
        out matches Some(files) && files@.map_values(|s: Sidecar| s@) == again@.map_values(
            |s: Sidecar| s@,
        ),
        final(sink).dropped.reads().len() == old(sink).dropped.reads().len() + 1,
        final(sink).voices == old(sink).voices,
{
    assert(final(sink).rx.taken().skip(old(sink).rx.taken().len() as int) =~= events@);
}

/// What an error tells a reader.
pub proof fn how_a_project_error_reads(
    error: &ProjectError,
    text: String,
    flac: &FlacError,
    flac_text: String,
    midi: &MidiReadError,
    midi_text: String,
)
    requires
        call_ensures(ProjectError::to_string, (error,), text),
        call_ensures(FlacError::to_string, (flac,), flac_text),
        call_ensures(MidiReadError::to_string, (midi,), midi_text),
    ensures
        text@ == match *error {
            ProjectError::Io(why) => "io: "@ + why@,
            ProjectError::Parse(why) => "manifest: "@ + why@,
            ProjectError::Serialize(why) => "manifest: "@ + why@,
            ProjectError::BadName(why) => "name: "@ + why@,
            ProjectError::BadId => "not a session id"@,
            ProjectError::NotASession => "no session there"@,
            ProjectError::Exists => "a session of that name already exists"@,
        },
        flac_text@ == "flac encode: "@ + match *flac {
            FlacError::TooManyChannels => "too many channels"@,
            FlacError::Encode(why) => why@,
        },
        midi_text@ == match *midi {
            MidiReadError::Io(why) => why@,
            MidiReadError::Parse(why) => "not a MIDI file this daemon can read: "@ + why@,
        },
{
}

/// The slug of a name is its lower case with a dash for whatever a file name had
/// better not hold.
pub proof fn what_a_slug_holds(name: &str, out: String, i: int)
    requires
        call_ensures(file_slug, (name,), out),
        0 <= i < lowered(name@).len(),
    ensures
        out@.len() == lowered(name@).len(),
        out@[i] == lowered(name@)[i] || out@[i] == '-',
        out@[i] == lowered(name@)[i] <==> alphanumeric(lowered(name@)[i]) || lowered(name@)[i]
            == '-',
        out@[i] != '/',
{
}

/// There is no latest session only where none reads.
pub proof fn without_a_session_there_is_no_latest(
    found: &Vec<FoundDir>,
    latest: Option<usize>,
    k: int,
)
    requires
        call_ensures(load_latest, (found,), latest),
        0 <= k < found@.len(),
        found@[k].manifest is Some,
    ensures
        latest is Some,
{
    if latest is None {
        assert(none_reads(found@));
    }
}

/// The chunks of a wrapped file lie one behind the other, each on an even place behind
/// the first. The first one with data is the file.
pub proof fn chunks_lie_on_even_places(bytes: Seq<u8>, i: int, to: int)
    requires
        0 <= i,
        i + 8 <= to <= bytes.len(),
    ensures
        ({
            let length = bytes[i + 4] + bytes[i + 5] * 0x100 + bytes[i + 6] * 0x1_0000 + bytes[i
                + 7] * 0x100_0000;
            let data = bytes[i] == 0x64 && bytes[i + 1] == 0x61 && bytes[i + 2] == 0x74 && bytes[i
                + 3] == 0x61;
            &&& data && i + 8 + length <= to ==> wrapped_from(bytes, i, to) == Some(
                (i + 8, i + 8 + length),
            )
            &&& data && i + 8 + length > to ==> wrapped_from(bytes, i, to) == Some((i + 8, to))
            &&& !data && i + 8 + length < to ==> wrapped_from(bytes, i, to) == wrapped_from(
                bytes,
                i + 8 + length + length % 2,
                to,
            )
            &&& !data && i + 8 + length >= to ==> wrapped_from(bytes, i, to) is None
        }),
{
    reveal_with_fuel(wrapped_from, 2);
}

/// A wrapped file is read from behind the form that it names. What is wrapped in
/// anything else is no file.
pub proof fn where_a_wrapped_file_lies(bytes: Seq<u8>)
    requires
        bytes.len() >= 12,
        bytes.take(4) == seq![0x52u8, 0x49, 0x46, 0x46],
        bytes[4] + bytes[5] * 0x100 + bytes[6] * 0x1_0000 + bytes[7] * 0x100_0000 == bytes.len()
            - 8,
    ensures
        bytes.subrange(8, 12) == seq![0x52u8, 0x4D, 0x49, 0x44] ==> file_at(bytes)
            == wrapped_from(bytes, 12, bytes.len() as int),
        bytes[8] != 0x52 || bytes[9] != 0x4D || bytes[10] != 0x49 || bytes[11] != 0x44 ==> file_at(
            bytes,
        ) is None,
{
    let riff = seq![0x52u8, 0x49, 0x46, 0x46];
    let rmid = seq![0x52u8, 0x4D, 0x49, 0x44];
    assert(bytes[0] == bytes.take(4)[0] && bytes[1] == bytes.take(4)[1] && bytes[2] == bytes.take(
        4,
    )[2] && bytes[3] == bytes.take(4)[3]);
    assert(riff[0] == 0x52 && riff[1] == 0x49 && riff[2] == 0x46 && riff[3] == 0x46);
    let form = bytes.subrange(8, 12);
    assert(bytes[8] == form[0] && bytes[9] == form[1] && bytes[10] == form[2] && bytes[11]
        == form[3]);
    assert(rmid[0] == 0x52 && rmid[1] == 0x4D && rmid[2] == 0x49 && rmid[3] == 0x44);
}

/// A track in front of any header is the end of a file. Behind one it is passed over,
/// as is a chunk of another kind anywhere.
pub proof fn which_chunks_are_passed_over(bytes: Seq<u8>, i: int, to: int, headed: bool)
    requires
        0 <= i,
        i + 8 <= to <= bytes.len(),
    ensures
        ({
            let length = bytes[i + 4] * 0x100_0000 + bytes[i + 5] * 0x1_0000 + bytes[i + 6] * 0x100
                + bytes[i + 7];
            let next = if i + 8 + length <= to {
                i + 8 + length
            } else {
                to
            };
            let head = bytes[i] == 0x4D && bytes[i + 1] == 0x54 && bytes[i + 2] == 0x68 && bytes[i
                + 3] == 0x64;
            let track = bytes[i] == 0x4D && bytes[i + 1] == 0x54 && bytes[i + 2] == 0x72 && bytes[i
                + 3] == 0x6B;
            &&& track && !headed ==> !odd_from(bytes, i, to, headed)
            &&& track && headed ==> odd_from(bytes, i, to, headed) == odd_from(
                bytes,
                next,
                to,
                true,
            )
            &&& !track && !head ==> odd_from(bytes, i, to, headed) == odd_from(
                bytes,
                next,
                to,
                headed,
            )
        }),
{
    reveal_with_fuel(odd_from, 2);
}

} // verus!
