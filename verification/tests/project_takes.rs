//! Formats, peaks, sessions and takes.

use std::sync::atomic::{AtomicBool, AtomicU64, Ordering};
use std::sync::Arc;

use rtrb::{Consumer, RingBuffer};
use tributary::console::id::StripId;
use tributary::console::mix::MixerState;
use tributary::console::strip::StripState;
use tributary::engine::ring::{RingRx, RingTx, Tally};
use tributary::project::format::RecordFormat;
use tributary::project::peaks::{
    read_sidecar, write_header, write_pair, PeakAccum, PEAK_SAMPLES_PER_BIN,
};
use tributary::project::reader::{
    matches_manifest, seek_target, FeedStep, FeederHandle, FileSpec, PlaybackSource, TrackFeeder,
    TrackFile,
};
use tributary::project::session::{
    check_id, resolve, validate_name, ProjectError, SCHEMA_VERSION,
};
use tributary::project::sessions::{
    create_project, list_sessions, load_latest, open_session, rename_session, FoundDir,
    ManifestHead,
};
use tributary::project::takes::{
    count_takes, join_path, list_takes, name_of_take, number_of_take, Project, TakeInfo,
    TakeTrackInfo,
};
use tributary::project::writer::{
    take_manifest, ActiveTrack, TakeTrackSpec, TrackOutcome, TrackSink,
};
use tributary::single::Single;

fn s(value: f32) -> Single {
    Single { bits: value.to_bits() }
}

fn f(sample: Single) -> f32 {
    f32::from_bits(sample.bits)
}

/// A bin as sixteen-bit values, saturated at full scale.
fn scaled(bin: (Single, Single)) -> (i16, i16) {
    let scale = |sample| (f(sample).clamp(-1.0, 1.0) * 32_767.0) as i16;
    (scale(bin.0), scale(bin.1))
}

#[test]
fn the_default_is_the_legacy_format() {
    assert_eq!(RecordFormat::default(), RecordFormat::Wav32Float);
}

#[test]
fn extension_bits_and_floatness_cover_the_matrix() {
    let table = [
        (RecordFormat::Wav16, "wav", 16, false),
        (RecordFormat::Wav24, "wav", 24, false),
        (RecordFormat::Wav32Float, "wav", 32, true),
        (RecordFormat::Flac16, "flac", 16, false),
        (RecordFormat::Flac24, "flac", 24, false),
    ];
    for (format, ext, bits, float) in table {
        assert_eq!(format.extension(), ext);
        assert_eq!(format.bits_per_sample(), bits);
        assert_eq!(format.is_float(), float);
        assert_eq!(format.is_flac(), ext == "flac");
    }
}

#[test]
fn bins_close_every_512_frames_scaled_and_saturated() {
    let mut accum = PeakAccum::new(1);
    let mut pairs = Vec::new();
    for i in 0..1024 {
        let v = if i == 100 {
            -2.0 // out of range: saturates
        } else if i == 700 {
            0.5
        } else {
            0.0
        };
        if let Some(bin) = accum.push(s(v)) {
            pairs.push(scaled(bin));
        }
    }
    assert_eq!(pairs.len(), 2);
    assert_eq!(pairs[0], (i16::MIN + 1, 0), "-2.0 clamps to -1.0");
    assert_eq!(pairs[1], (0, (0.5f32 * 32767.0) as i16));
}

#[test]
fn a_stereo_track_folds_both_channels_into_one_bin() {
    let mut accum = PeakAccum::new(2);
    let mut pairs = Vec::new();
    // 512 frames = 1024 samples: L=0.25, R=-0.75.
    for i in 0..1024 {
        let v = if i % 2 == 0 { 0.25 } else { -0.75 };
        if let Some(bin) = accum.push(s(v)) {
            pairs.push(scaled(bin));
        }
    }
    assert_eq!(pairs.len(), 1);
    let (min, max) = pairs[0];
    assert!((f32::from(min) / 32767.0 + 0.75).abs() < 1e-3);
    assert!((f32::from(max) / 32767.0 - 0.25).abs() < 1e-3);
}

#[test]
fn flush_emits_the_partial_tail_once() {
    let mut accum = PeakAccum::new(1);
    for _ in 0..100 {
        assert!(accum.push(s(0.9)).is_none());
    }
    assert_eq!(
        accum.flush().map(scaled),
        Some(((0.9f32 * 32767.0) as i16, (0.9f32 * 32767.0) as i16))
    );
    assert_eq!(accum.flush(), None, "the tail does not repeat");
}

#[test]
fn sidecar_bytes_round_trip_and_tolerate_a_torn_tail() {
    let mut out = Vec::new();
    write_header(&mut out);
    write_pair(&mut out, (-100, 200));
    write_pair(&mut out, (-300, 400));
    out.push(0xFF); // torn write: half a pair

    let (spb, pairs) = read_sidecar(&out).unwrap();
    assert_eq!(spb, PEAK_SAMPLES_PER_BIN);
    assert_eq!(pairs, vec![(-100, 200), (-300, 400)]);
    assert!(read_sidecar(&out[1..].to_vec()).is_none(), "no header");
}

#[test]
fn bins_come_out_the_same_however_the_samples_are_cut() {
    let samples: Vec<Single> = (0..1500)
        .map(|i| s((i as f32) / 1500.0 * if i % 3 == 0 { -1.0 } else { 1.0 }))
        .collect();
    let mut whole = PeakAccum::new(1);
    let mut expected = Vec::new();
    whole.push_all(&samples, &mut expected);
    expected.extend(whole.flush());
    let mut cut = PeakAccum::new(1);
    let mut bins = Vec::new();
    for piece in samples.chunks(77) {
        cut.push_all(&piece.to_vec(), &mut bins);
    }
    bins.extend(cut.flush());
    assert_eq!(bins, expected);
    assert_eq!(bins.len(), 3, "1500 frames = 2 full bins + tail");
}

#[test]
fn backfill_from_wav_matches_the_incremental_accumulator() {
    let spec = hound::WavSpec {
        channels: 1,
        sample_rate: 48_000,
        bits_per_sample: 32,
        sample_format: hound::SampleFormat::Float,
    };
    let mut file = std::io::Cursor::new(Vec::new());
    let mut writer = hound::WavWriter::new(&mut file, spec).unwrap();
    let mut accum = PeakAccum::new(1);
    let mut expected = Vec::new();
    for i in 0..1500 {
        let v = ((i as f32) / 1500.0) * (if i % 3 == 0 { -1.0 } else { 1.0 });
        writer.write_sample(v).unwrap();
        expected.extend(accum.push(s(v)));
    }
    expected.extend(accum.flush());
    writer.finalize().unwrap();

    file.set_position(0);
    let mut reader = hound::WavReader::new(file).unwrap();
    let samples: Vec<Single> = reader.samples::<f32>().map(|v| s(v.unwrap())).collect();
    let mut accum = PeakAccum::new(1);
    let mut bins = Vec::new();
    accum.push_all(&samples, &mut bins);
    bins.extend(accum.flush());
    assert_eq!(bins, expected, "1500 frames = 2 full bins + tail");
    assert_eq!(bins.len(), 3);
    let mut sidecar = Vec::new();
    write_header(&mut sidecar);
    for bin in &bins {
        write_pair(&mut sidecar, scaled(*bin));
    }
    let (_, cached) = read_sidecar(&sidecar).unwrap();
    assert_eq!(cached.len(), 3);
    assert_eq!(cached[2], scaled(bins[2]), "the sidecar cache holds the same pairs");
}

fn state() -> MixerState {
    MixerState {
        strips: vec![StripState::new(StripId(0), "Vocal".into())],
        ..MixerState::default()
    }
}

#[test]
fn create_save_load_round_trips_the_mixer() {
    let (project, written) = create_project("/music", "Friday Night", state(), 1_700).unwrap();
    assert_eq!(project.dir, "/music/1700-friday-night");
    assert_eq!(project.name, "Friday Night");
    assert_eq!(written.schema_version, SCHEMA_VERSION);
    assert_eq!(written.created_at_unix, 1_700);
    let root = Some("/music".to_string());
    let dir = resolve(&root, Some(project.dir.clone()), true, "1700-friday-night").unwrap();
    let (opened, manifest) = open_session(&dir, written);
    assert_eq!(opened.name, "Friday Night");
    assert_eq!(opened.dir, "/music/1700-friday-night");
    assert_eq!(manifest.mixer, state());
    assert_eq!(opened.next_take(&vec![]), 1);
}

#[test]
fn resolve_refuses_anything_that_is_not_a_session_directly_under_the_root() {
    let root = Some("/music".to_string());
    let id = "100-gig";
    let under = |name: &str| Some(join_path("/music", name));
    assert!(resolve(&root, under(id), true, id).is_ok());
    for bad in ["", ".", "..", "../..", "../../etc", "a/b", "/etc", "/", "gig/takes"] {
        assert!(matches!(check_id(bad), Err(ProjectError::BadId)), "{bad:?}");
        assert!(
            matches!(
                resolve(&root, under(bad), true, bad),
                Err(ProjectError::BadId | ProjectError::NotASession)
            ),
            "resolve accepted {bad:?}"
        );
    }
    // A directory under the root without a manifest.
    assert!(matches!(
        resolve(&root, under("holiday-photos"), false, "holiday-photos"),
        Err(ProjectError::NotASession)
    ));
    // A link that leads out of the root.
    assert!(matches!(
        resolve(&root, Some("/home/photos".into()), true, "link"),
        Err(ProjectError::NotASession | ProjectError::BadId)
    ));
    // A nested directory of a real session is not itself a session.
    assert!(resolve(&root, under("100-gig/takes"), true, "100-gig/takes").is_err());
    // Nothing there at all.
    assert!(resolve(&root, None, false, id).is_err());
    assert!(resolve(&None, under(id), true, id).is_err());
}

#[test]
fn a_name_that_is_empty_or_too_long_or_multiline_is_refused() {
    assert!(validate_name("Friday Night").is_ok());
    // Trimmed, not rejected.
    assert_eq!(validate_name("  Gig  ").unwrap(), "Gig");
    for bad in ["", "   ", "line\nbreak", "nul\0byte"] {
        assert!(validate_name(bad).is_err(), "accepted {bad:?}");
    }
    assert!(validate_name(&"x".repeat(64)).is_ok());
    // 65 characters would push the slugged directory component toward
    // the 255-byte filesystem ceiling.
    assert!(validate_name(&"x".repeat(65)).is_err());
}

#[test]
fn each_project_error_says_its_own_thing() {
    let said: Vec<String> = [
        ProjectError::Io("disk".into()),
        ProjectError::Parse("bad".into()),
        ProjectError::Serialize("odd".into()),
        validate_name("").unwrap_err(),
        ProjectError::BadId,
        ProjectError::NotASession,
        ProjectError::Exists,
    ]
    .iter()
    .map(|error| error.to_string())
    .collect();
    for (i, text) in said.iter().enumerate() {
        assert!(!text.is_empty());
        assert!(!said[..i].contains(text), "{text}");
    }
    assert!(said[1].contains("bad") && said[2].contains("odd"));
}

fn found(id: &str, name: Option<&str>, take_count: usize) -> FoundDir {
    FoundDir {
        id: id.into(),
        manifest: name.map(|name| ManifestHead { name: name.into(), created_at_unix: 1 }),
        take_count,
    }
}

#[test]
fn list_sessions_reports_every_session_newest_first_with_take_counts() {
    let dirs = vec![
        found("200-mid", Some("mid"), count_takes(&vec![true, true, false])),
        found("100-old", Some("old"), 0),
        found("300-new", Some("new"), 0),
    ];
    let sessions = list_sessions(dirs);
    assert_eq!(
        sessions.iter().map(|s| s.name.as_str()).collect::<Vec<_>>(),
        ["new", "mid", "old"]
    );
    assert_eq!(sessions[1].id, "200-mid");
    assert_eq!(sessions[1].take_count, 2);
    assert_eq!(sessions[0].take_count, 0);
}

#[test]
fn list_sessions_and_load_latest_agree_on_the_newest() {
    let dirs = || {
        vec![
            found("100-old", Some("old"), 0),
            found("999-not-a-session", None, 0),
            found("300-new", Some("new"), 0),
        ]
    };
    let latest = load_latest(&dirs()).unwrap();
    assert_eq!(latest, 2);
    let listed = list_sessions(dirs());
    assert_eq!(listed[0].id, dirs()[latest].id);
    assert_eq!(listed[0].name, "new");
}

#[test]
fn a_rename_moves_the_manifest_name_and_never_the_directory() {
    let (created, manifest) = create_project("/music", "gig", state(), 5).unwrap();
    let renamed = rename_session(manifest, " Saturday ").unwrap();
    assert_eq!(renamed.name, "Saturday");
    assert_eq!(renamed.created_at_unix, 5);
    assert_eq!(renamed.mixer, state(), "the console survived");
    assert_eq!(created.dir, "/music/5-gig");
    assert!(matches!(
        rename_session(renamed, "two\nlines"),
        Err(ProjectError::BadName(_))
    ));
}

#[test]
fn a_session_whose_manifest_is_gone_is_invisible_to_list_and_load_latest() {
    let dirs = || vec![found("100-good", Some("good"), 0), found("900-half-deleted", None, 1)];
    assert_eq!(list_sessions(dirs()).len(), 1);
    assert_eq!(load_latest(&dirs()), Some(0));
    let root = Some("/music".to_string());
    assert!(matches!(
        resolve(&root, Some("/music/900-half-deleted".into()), false, "900-half-deleted"),
        Err(ProjectError::NotASession)
    ));
    assert_eq!(load_latest(&vec![found("1", None, 0)]), None);
}

#[test]
fn a_corrupt_manifest_is_skipped_not_fatal() {
    let dirs = vec![found("1700-good", Some("good"), 0), found("zzz-newest-but-broken", None, 0)];
    assert_eq!(load_latest(&dirs), Some(0));
}

fn names(takes: &[&str]) -> Vec<String> {
    takes.iter().map(|take| (*take).to_string()).collect()
}

fn project() -> Project {
    Project { dir: "/music/100-x".into(), name: "x".into() }
}

#[test]
fn next_take_counts_past_existing_dirs() {
    let takes = names(&["take-001", "take-007", "notes"]);
    assert_eq!(project().next_take(&takes), 8, "gaps are not refilled");
}

#[test]
fn delete_take_removes_the_whole_take_and_frees_the_newest_number() {
    let project = project();
    assert_eq!(project.next_take(&names(&["take-001", "take-002", "take-003"])), 4);
    assert_eq!(project.take_dir(3), "/music/100-x/takes/take-003");
    assert_eq!(project.next_take(&names(&["take-001", "take-002"])), 3);
    // Deleting a middle take leaves a gap.
    assert_eq!(project.next_take(&names(&["take-002"])), 3);
}

fn take_info(damaged: bool) -> TakeInfo {
    TakeInfo {
        schema_version: 1,
        started_at_unix: 100,
        sample_rate: 48_000,
        format: RecordFormat::Wav32Float,
        damaged,
        tracks: vec![TakeTrackInfo {
            file: "master.wav".into(),
            channels: 2,
            frames: 96_000,
            dropped_samples: 0,
            strip_id: None,
        }],
        midi_tracks: vec![],
        take: 0,
    }
}

#[test]
fn list_takes_reads_manifests_newest_first_and_skips_torn_ones() {
    let takes = list_takes(vec![
        ("take-001".into(), Some(take_info(false))),
        ("take-004".into(), None),
        ("take-003".into(), Some(take_info(true))),
        ("sketches".into(), Some(take_info(false))),
    ]);
    assert_eq!(takes.len(), 2, "the manifest-less take is invisible");
    assert_eq!(takes[0].take, 3, "newest first");
    assert!(takes[0].damaged);
    assert_eq!(takes[1].tracks[0].frames, 96_000);
}

#[test]
fn a_take_is_named_by_its_number() {
    assert_eq!(name_of_take(7), "take-007");
    assert_eq!(name_of_take(1_234), "take-1234");
    assert_eq!(number_of_take("take-007"), Some(7));
    assert_eq!(number_of_take("take-"), None);
    assert_eq!(number_of_take("tape-001"), None);
    assert_eq!(number_of_take("take-99999999999"), None);
    assert_eq!(project().takes_dir(), "/music/100-x/takes");
}

fn sink(
    file: &str,
    channels: u16,
    rx: Consumer<Single>,
    dropped: &Arc<AtomicU64>,
) -> TrackSink {
    TrackSink {
        spec: TakeTrackSpec { file: file.into(), channels, strip_id: Some(4) },
        rx: RingRx::new(rx),
        dropped: Tally::new(dropped.clone()),
    }
}

/// Runs a track until its writer is gone; what was written, and the batches
/// that its tap was sent.
fn run(track: &mut ActiveTrack, tapped: bool) -> (Vec<f32>, Vec<(usize, u64, usize)>) {
    let mut written = Vec::new();
    let mut batches = Vec::new();
    loop {
        let over = track.is_over();
        for sample in track.drain() {
            written.push(f(sample));
            if let Some(bin) = track.write(sample, true) {
                track.close_bin(scaled(bin));
            }
        }
        if over {
            if let Some(bin) = track.flush() {
                track.close_bin(scaled(bin));
            }
        }
        if let Some(batch) = track.send_bins(0, tapped) {
            batches.push((batch.track, batch.start_bin, batch.bins.len() / 2));
        }
        if over {
            return (written, batches);
        }
    }
}

#[test]
fn writes_pushed_samples_and_finalizes_on_abandon() {
    let (mut tx, rx) = RingBuffer::new(1024);
    for i in 0..480 {
        tx.push(s(i as f32 / 480.0)).unwrap();
    }
    let none = Arc::new(AtomicU64::new(0));
    let mut track = ActiveTrack::new(sink("ch01-test.wav", 1, rx, &none));
    assert!(!track.is_over());
    drop(tx);
    let (written, batches) = run(&mut track, false);
    assert_eq!(written.len(), 480);
    assert_eq!(written[0], 0.0);
    assert!(batches.is_empty(), "nobody taps");
    let (row, damaged) = track.finish(true);
    assert_eq!(row.frames, 480);
    assert_eq!(row.strip_id, Some(4));
    assert_eq!(row.dropped_samples, 0);
    assert!(!damaged);
    let manifest = take_manifest(
        1_000,
        48_000,
        RecordFormat::Wav32Float,
        vec![TrackOutcome::Finished(row, damaged)],
        vec![],
    );
    assert!(!manifest.damaged);
    assert_eq!(manifest.schema_version, SCHEMA_VERSION);
    assert_eq!(manifest.tracks[0].frames, 480);
}

#[test]
fn the_peaks_tap_streams_every_bin_in_order() {
    let (mut tx, rx) = RingBuffer::new(4096);
    // 2.5 bins: two live pairs + a flushed tail.
    for _ in 0..1280 {
        tx.push(s(0.5)).unwrap();
    }
    let none = Arc::new(AtomicU64::new(0));
    let mut track = ActiveTrack::new(sink("ch01-test.wav", 1, rx, &none));
    drop(tx);
    let (_, batches) = run(&mut track, true);
    let total: usize = batches.iter().map(|(_, _, n)| n).sum();
    assert_eq!(total, 3, "two full bins + the tail");
    assert_eq!(batches[0].0, 0, "track index rides along");
    assert_eq!(batches[0].1, 0, "bins start at zero");
    let mut expected_start = 0;
    for &(_, start, count) in batches.iter() {
        assert_eq!(start, expected_start);
        expected_start += count as u64;
    }
}

#[test]
fn dropped_samples_become_silence_and_mark_the_take_damaged() {
    let (mut tx, rx) = RingBuffer::new(1024);
    for _ in 0..100 {
        tx.push(s(0.5)).unwrap();
    }
    let dropped = Arc::new(AtomicU64::new(0));
    dropped.store(20, Ordering::Relaxed); // 20 samples lost to overrun
    let mut track = ActiveTrack::new(sink("master.wav", 2, rx, &dropped));
    drop(tx);
    let (written, _) = run(&mut track, false);
    assert_eq!(written.len(), 120, "100 real + 20 silence");
    assert_eq!(written.iter().filter(|v| **v == 0.0).count(), 20);
    let (row, failed) = track.finish(true);
    assert!(!failed, "every write landed");
    assert_eq!(row.dropped_samples, 20);
    assert_eq!(row.frames, 60);
    let outcomes = vec![TrackOutcome::Finished(row, failed)];
    assert!(take_manifest(1_000, 48_000, RecordFormat::Wav32Float, outcomes, vec![]).damaged);
}

#[test]
fn only_what_was_lost_since_is_repaired() {
    let (_tx, rx) = RingBuffer::new(8);
    let none = Arc::new(AtomicU64::new(0));
    let mut track = ActiveTrack::new(sink("master.wav", 2, rx, &none));
    assert_eq!(track.repair(vec![s(0.5)], 2), [s(0.5), s(0.0), s(0.0)]);
    assert_eq!(track.repair(vec![], 3), [s(0.0)]);
    assert_eq!(track.repair(vec![s(1.0)], 3), [s(1.0)]);
    assert_eq!(track.silenced_samples, 3);
}

#[test]
fn a_multi_track_take_completes_every_row() {
    let none = Arc::new(AtomicU64::new(0));
    let mut outcomes = Vec::new();
    for (file, channels, samples) in
        [("ch01-a.flac", 1, 600), ("ch02-b.flac", 1, 1200), ("master.flac", 2, 2400)]
    {
        let (mut tx, rx) = RingBuffer::new(8192);
        for i in 0..samples {
            tx.push(s(i as f32 / samples as f32)).unwrap();
        }
        let mut track = ActiveTrack::new(sink(file, channels, rx, &none));
        drop(tx);
        run(&mut track, false);
        let (row, damaged) = track.finish(true);
        outcomes.push(TrackOutcome::Finished(row, damaged));
    }
    let manifest = take_manifest(1_000, 48_000, RecordFormat::Flac16, outcomes, vec![]);
    assert_eq!(manifest.tracks.len(), 3);
    assert_eq!(manifest.tracks[0].frames, 600);
    assert_eq!(manifest.tracks[1].frames, 1200);
    assert_eq!(manifest.tracks[2].frames, 1200, "stereo: 2400 samples");
    assert!(!manifest.damaged);
}

#[test]
fn a_lost_track_damages_the_take() {
    let spec = TakeTrackSpec { file: "ch01-a.wav".into(), channels: 1, strip_id: None };
    let outcomes = vec![TrackOutcome::Lost(spec)];
    let manifest = take_manifest(1, 48_000, RecordFormat::Wav16, outcomes, vec![]);
    assert!(manifest.damaged);
    assert_eq!(manifest.tracks[0].file, "ch01-a.wav");
    assert_eq!(manifest.tracks[0].frames, 0);
}

#[test]
fn a_write_that_did_not_land_damages_the_track() {
    let (_tx, rx) = RingBuffer::new(8);
    let none = Arc::new(AtomicU64::new(0));
    let mut track = ActiveTrack::new(sink("ch01-a.wav", 1, rx, &none));
    assert!(track.write(s(0.5), false).is_none());
    let (_, damaged) = track.finish(true);
    assert!(damaged);
}

/// Feeds a file whose sample at frame `i` is `i`, until the feeder is done or
/// its ring is full.
fn feed(feeder: &mut TrackFeeder, frames: u64) {
    loop {
        let (space, count) = feeder.plan();
        for _ in 0..count {
            let got = if feeder.is_real() {
                (0..feeder.channels)
                    .map(|c| Some(s(feeder.pos as f32 + c as f32 * 0.5)))
                    .collect()
            } else {
                vec![]
            };
            assert!(feeder.feed(&got));
        }
        match feeder.after(space, count) {
            FeedStep::Rest | FeedStep::Finished => return,
            FeedStep::Reopen { rest: true, .. } => return,
            FeedStep::Reopen { at, .. } => {
                feeder.reopened(frames);
                assert_eq!(feeder.pos, at);
            }
        }
    }
}

fn fed(
    frames: u64,
    channels: u16,
    start: u64,
    end: u64,
    region: Option<(u64, u64)>,
    ring: usize,
) -> Vec<f32> {
    let (tx, mut rx) = RingBuffer::new(ring);
    let mut feeder = TrackFeeder::new(channels, frames, RingTx::new(tx), start, end, region);
    feed(&mut feeder, frames);
    let mut out = Vec::new();
    while let Ok(sample) = rx.pop() {
        out.push(f(sample));
    }
    out
}

#[test]
fn file_content_round_trips_through_the_rings() {
    let samples = fed(500, 1, 0, 500, None, 4096);
    assert_eq!(samples.len(), 500);
    assert_eq!(samples[0], 0.0);
    assert_eq!(samples[499], 499.0);
}

#[test]
fn a_short_track_is_padded_with_silence_to_the_take_length() {
    let mono_samples = fed(100, 1, 0, 300, None, 4096);
    let master = fed(300, 2, 0, 300, None, 4096);
    assert_eq!(mono_samples.len(), 300, "padded to the take length");
    assert_eq!(mono_samples[99], 99.0);
    assert_eq!(mono_samples[100], 0.0, "the pad is silence");
    assert_eq!(master.len(), 600, "stereo: two samples per frame");
    assert_eq!(master[1], 0.5, "R of frame 0");
}

#[test]
fn start_frame_seeks_into_the_file() {
    let samples = fed(400, 1, 250, 400, None, 4096);
    assert_eq!(samples.len(), 150);
    assert_eq!(samples[0], 250.0, "the first sample is the seek target");
    assert_eq!(seek_target(250, 400, RecordFormat::Wav32Float), Some(250));
    assert_eq!(seek_target(900, 400, RecordFormat::Wav32Float), Some(400));
}

#[test]
fn a_loop_region_wraps_seamlessly() {
    let samples = fed(400, 1, 90, 120, Some((50, 120)), 200);
    // From 90 up to the loop end, then wrapping [50, 120) forever.
    let mut expected: Vec<f32> = (90..120).map(|i| i as f32).collect();
    while expected.len() < 200 {
        expected.extend((50..120).map(|i| i as f32));
    }
    assert_eq!(samples, expected[..200]);
}

#[test]
fn a_feeder_plans_whole_frames_up_to_the_end() {
    let (tx, _rx) = RingBuffer::new(8);
    let feeder = TrackFeeder::new(2, 100, RingTx::new(tx), 97, 100, None);
    assert_eq!(feeder.plan_for(5), (2, 2));
    assert_eq!(feeder.plan_for(80), (40, 3));
    assert_eq!(feeder.plan_for(0), (0, 0));
}

#[test]
fn a_feeder_plans_for_the_room_in_its_ring() {
    let (tx, _rx) = RingBuffer::new(7);
    let mut feeder = TrackFeeder::new(2, 100, RingTx::new(tx), 98, 100, None);
    assert_eq!(feeder.plan(), (3, 2));
    assert!(feeder.feed(&vec![Some(s(1.0)), Some(s(2.0))]));
    assert_eq!(feeder.plan(), (2, 1));
}

#[test]
fn a_file_that_cannot_be_read_on_falls_silent_in_step() {
    let (tx, mut rx) = RingBuffer::new(8);
    let mut feeder = TrackFeeder::new(1, 3, RingTx::new(tx), 0, 3, None);
    assert!(feeder.feed(&vec![Some(s(1.0))]));
    assert!(feeder.feed(&vec![None]));
    assert!(!feeder.is_real());
    assert!(feeder.feed(&vec![]));
    assert_eq!(feeder.pos, 3);
    assert_eq!(rx.pop(), Ok(s(1.0)));
    assert_eq!(rx.pop(), Ok(s(0.0)));
    assert_eq!(rx.pop(), Ok(s(0.0)));
}

#[test]
fn a_format_mismatch_is_refused_per_field() {
    let f32_wav = FileSpec { channels: 1, sample_rate: 48_000, bits: 32, float: true };
    let i16_wav = FileSpec { channels: 1, sample_rate: 48_000, bits: 16, float: false };
    assert!(matches_manifest(f32_wav, 1, 48_000, RecordFormat::Wav32Float));
    assert!(matches_manifest(i16_wav, 1, 48_000, RecordFormat::Wav16));
    assert!(!matches_manifest(f32_wav, 1, 48_000, RecordFormat::Wav16));
    assert!(!matches_manifest(i16_wav, 1, 48_000, RecordFormat::Wav32Float));
    assert!(!matches_manifest(i16_wav, 1, 48_000, RecordFormat::Wav24));
    // The engine-rate wall stays: right file, wrong rate.
    assert!(!matches_manifest(i16_wav, 1, 44_100, RecordFormat::Wav16), "rate mismatch");
}

#[test]
fn a_mismatched_spec_is_refused_up_front() {
    let stereo = FileSpec { channels: 2, sample_rate: 48_000, bits: 32, float: true };
    assert!(!matches_manifest(stereo, 1, 48_000, RecordFormat::Wav32Float));
}

#[test]
fn a_take_ends_at_its_loop() {
    let mut source = PlaybackSource {
        take_dir: "/t".into(),
        tracks: vec![TrackFile { file: "a.wav".into(), channels: 1 }],
        sample_rate: 48_000,
        format: RecordFormat::Wav16,
        total_frames: 400,
        start_frame: 0,
        loop_region: None,
    };
    assert_eq!(source.end(), 400);
    assert_eq!(source.ring_samples(2), 4 * 48_000 * 2);
    source.loop_region = Some((50, 120));
    assert_eq!(source.end(), 120);
}

#[test]
fn stop_tells_the_feeder() {
    let stop = Arc::new(AtomicBool::new(false));
    FeederHandle::new(stop.clone()).stop();
    assert!(stop.load(Ordering::Relaxed));
}
