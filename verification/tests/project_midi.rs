//! The MIDI sidecars of a take, and the names of its files.

use std::sync::atomic::AtomicU64;
use std::sync::Arc;

use tributary::console::instrument::CapturedMidi;
use tributary::engine::ring::{RingRx, Tally};
use tributary::project::headers::names_odd_rate;
use tributary::project::midi::{
    build_smf, can_write, chunk, low_bits, sample_of, tick_of, write_vlq, MICROS_PER_QUARTER,
    TICKS_PER_QUARTER, TICKS_PER_SECOND,
};
use tributary::project::naming::{dashed, file_slug, push_padded};
use tributary::project::notes::{drain_notes, sidecars, write_sidecars, MidiSink};
use tributary::project::sidecar::{
    encode, events_of, read_midi_sidecar, ChannelMessage, MidiReadError, SidecarEvent, SmfFile,
    SmfStep,
};

fn note(sample: u64, instrument: u16, status: u8, data1: u8, data2: u8) -> CapturedMidi {
    CapturedMidi { sample, instrument, status, data1, data2 }
}

#[test]
fn a_written_sidecar_parses_back_to_the_events_that_were_captured() {
    const SR: u32 = 48_000;
    let captured = vec![
        note(0, 0, 0x90, 60, 100),
        note(SR as u64 / 2, 0, 0x80, 60, 0),
        note(SR as u64, 0, 0xB0, 64, 127),
        note(SR as u64 * 2, 0, 0xC0, 4, 0),
    ];
    let bytes = build_smf("Rhodes", SR, &captured);
    let back = read_midi_sidecar(&bytes, SR).expect("our own file parses");

    assert_eq!(back.len(), captured.len());
    for (read, wrote) in back.iter().zip(&captured) {
        // Everything is written on the first channel.
        assert_eq!(read.status, wrote.status & 0xF0);
        assert_eq!(read.data1, wrote.data1);
        // A tick is 1/960 s, so a sample can land one tick either way.
        let tolerance = SR as u64 / TICKS_PER_SECOND + 1;
        assert!(
            read.sample.abs_diff(wrote.sample) <= tolerance,
            "{} vs {}",
            read.sample,
            wrote.sample
        );
    }
    assert_eq!(back[3].data2, 0, "a program change carries two bytes");
}

#[test]
fn ticks_map_back_to_the_samples_they_came_from_at_a_non_integral_rate() {
    const SR: u32 = 44_100;
    for seconds in [0u64, 1, 7, 60, 600] {
        let sample = seconds * u64::from(SR);
        let tick = tick_of(sample, SR);
        let back = sample_of(tick, MICROS_PER_QUARTER, TICKS_PER_QUARTER, SR);
        assert!(
            back.abs_diff(sample) <= u64::from(SR) / TICKS_PER_SECOND + 1,
            "{seconds}s: {sample} -> {tick} -> {back}"
        );
    }
}

#[test]
fn a_file_at_another_tempo_maps_to_the_right_samples() {
    const SR: u32 = 48_000;
    // 96 ticks/quarter at 1_000_000 µs/quarter = 96 ticks per second.
    let mut track: Vec<u8> = Vec::new();
    write_vlq(&mut track, 0);
    track.extend_from_slice(&[0xFF, 0x51, 0x03]);
    track.extend_from_slice(&1_000_000u32.to_be_bytes()[1..]);
    write_vlq(&mut track, 96); // one second in
    track.extend_from_slice(&[0x90, 60, 100]);
    write_vlq(&mut track, 0);
    track.extend_from_slice(&[0xFF, 0x2F, 0x00]);
    let mut header = Vec::new();
    header.extend_from_slice(&0u16.to_be_bytes());
    header.extend_from_slice(&1u16.to_be_bytes());
    header.extend_from_slice(&96u16.to_be_bytes());
    let mut bytes = chunk("MThd", &header);
    bytes.extend(chunk("MTrk", &track));

    let events = read_midi_sidecar(&bytes, SR).expect("parses");
    assert_eq!(events.len(), 1);
    assert_eq!(events[0].sample, u64::from(SR), "exactly one second in");
}

#[test]
fn a_truncated_file_never_panics_and_a_headless_one_is_refused() {
    let bytes = build_smf("Rhodes", 48_000, &[note(0, 0, 0x90, 60, 100)]);
    for cut in 0..bytes.len() {
        let _ = read_midi_sidecar(&bytes[..cut].to_vec(), 48_000);
    }

    // Cut short of any track chunk, the file holds no track.
    assert!(matches!(
        read_midi_sidecar(&bytes[..14].to_vec(), 48_000),
        Err(MidiReadError::Parse(_))
    ));

    // But a file one byte short still yields its notes.
    assert_eq!(
        read_midi_sidecar(&bytes[..bytes.len() - 1].to_vec(), 48_000)
            .expect("recoverable")
            .len(),
        1
    );
}

#[test]
fn a_variable_length_quantity_matches_the_spec() {
    let mut out = Vec::new();
    write_vlq(&mut out, 0);
    assert_eq!(out, [0x00]);
    out.clear();
    write_vlq(&mut out, 127);
    assert_eq!(out, [0x7F]);
    out.clear();
    write_vlq(&mut out, 128);
    assert_eq!(out, [0x81, 0x00]);
    out.clear();
    write_vlq(&mut out, 0x0F_FF_FF);
    assert_eq!(out, [0xBF, 0xFF, 0x7F]);
}

#[test]
fn a_smf_is_byte_exact_for_a_known_event_stream() {
    // One note on at time zero, one note off half a second later.
    let events = [note(0, 0, 0x90, 60, 100), note(24_000, 0, 0x80, 60, 0)];
    let bytes = build_smf("Kit", 48_000, &events);

    assert_eq!(&bytes[0..4], b"MThd");
    assert_eq!(&bytes[4..8], &6u32.to_be_bytes());
    // Format 0, one track, 480 ticks per quarter.
    assert_eq!(&bytes[8..14], &[0x00, 0x00, 0x00, 0x01, 0x01, 0xE0]);
    assert_eq!(&bytes[14..18], b"MTrk");

    let track = &bytes[22..];
    // Tempo meta, then the track name, then the notes.
    assert_eq!(&track[0..7], &[0x00, 0xFF, 0x51, 0x03, 0x07, 0xA1, 0x20]);
    assert_eq!(&track[7..11], &[0x00, 0xFF, 0x03, 0x03]);
    assert_eq!(&track[11..14], b"Kit");
    assert_eq!(&track[14..18], &[0x00, 0x90, 60, 100]);
    // Half a second = 480 ticks, which is a two-byte quantity.
    assert_eq!(&track[18..23], &[0x83, 0x60, 0x80, 60, 0]);
    assert_eq!(&track[23..], &[0x00, 0xFF, 0x2F, 0x00]);
}

#[test]
fn ticks_come_from_absolute_samples_so_a_long_take_never_drifts() {
    // 44.1 kHz gives a non-integral ratio, so accumulating rounded
    // deltas would slide the notes off the audio over ten minutes.
    let rate = 44_100;
    let ten_minutes = rate as u64 * 600;
    assert_eq!(tick_of(0, rate), 0);
    assert_eq!(tick_of(rate as u64, rate), TICKS_PER_SECOND);
    assert_eq!(tick_of(ten_minutes, rate), TICKS_PER_SECOND * 600);

    // And the deltas the writer emits still sum to the same place.
    let events: Vec<CapturedMidi> = (0..600)
        .map(|second| note(rate as u64 * second, 0, 0x90, 60, 100))
        .collect();
    let bytes = build_smf("Long", rate, &events);
    assert!(!bytes.is_empty());
    let back = read_midi_sidecar(&bytes, rate).unwrap();
    assert_eq!(back[599].sample, rate as u64 * 599);
}

#[test]
fn a_program_change_writes_two_bytes_not_three() {
    let bytes = build_smf("P", 48_000, &[note(0, 0, 0xC0, 4, 0)]);
    let track = &bytes[20..];
    // …0xC0 0x04 then straight to end-of-track.
    let tail = &track[track.len() - 6..];
    assert_eq!(tail, &[0xC0, 0x04, 0x00, 0xFF, 0x2F, 0x00]);
}

#[test]
fn every_event_is_written_on_one_channel() {
    let bytes = build_smf("K", 48_000, &[note(0, 0, 0x95, 60, 100)]);
    assert!(bytes.windows(3).any(|w| w == [0x90, 60, 100]));
}

fn sink(rx: rtrb::Consumer<CapturedMidi>, voices: &[(u16, &str)]) -> MidiSink {
    MidiSink {
        rx: RingRx::new(rx),
        dropped: Tally::new(Arc::new(AtomicU64::new(0))),
        voices: voices.iter().map(|(id, name)| (*id, (*name).to_string())).collect(),
    }
}

#[test]
fn a_voice_nobody_played_writes_no_file() {
    let (_tx, rx) = rtrb::RingBuffer::<CapturedMidi>::new(8);
    let files = write_sidecars(48_000, &mut sink(rx, &[(0, "Silent")])).unwrap();
    assert!(files.is_empty());
}

#[test]
fn each_armed_instrument_gets_its_own_file() {
    let (mut tx, rx) = rtrb::RingBuffer::<CapturedMidi>::new(16);
    tx.push(note(0, 0, 0x90, 36, 100)).unwrap();
    tx.push(note(480, 1, 0x90, 38, 90)).unwrap();
    let mut sink = sink(rx, &[(0, "Kit Kick"), (1, "Kit Snare")]);
    let files = write_sidecars(48_000, &mut sink).unwrap();
    assert_eq!(files.len(), 2);
    assert_eq!(files[0].report.file, "inst01-kit-kick.mid");
    assert_eq!(files[1].report.file, "inst02-kit-snare.mid");
    assert_eq!(files[1].report.events, 1);
    let back = read_midi_sidecar(&files[1].bytes, 48_000).unwrap();
    assert_eq!(back[0], SidecarEvent { sample: 450, status: 0x90, data1: 38, data2: 90 });
}

#[test]
fn the_ring_is_drained_in_order_and_the_losses_are_reported() {
    let (mut tx, rx) = rtrb::RingBuffer::<CapturedMidi>::new(4);
    tx.push(note(3, 0, 0x90, 1, 1)).unwrap();
    tx.push(note(9, 0, 0x90, 2, 1)).unwrap();
    let mut rx = RingRx::new(rx);
    let events = drain_notes(&mut rx);
    assert_eq!(events.len(), 2);
    assert_eq!(events[1].sample, 9);
    let files = sidecars(48_000, &vec![(0, "A".to_string()), (7, "B".to_string())], &events, 5);
    assert_eq!(files.len(), 1);
    assert_eq!(files[0].report.dropped_events, 5);
    assert_eq!(files[0].report.events, 2);
    assert_eq!(files[0].report.name, "A");
}

#[test]
fn a_gap_that_the_format_cannot_hold_is_refused() {
    assert!(can_write(48_000, &[note(0, 0, 0x90, 1, 1), note(480_000, 0, 0x80, 1, 1)]));
    assert!(!can_write(1, &[note(0, 0, 0x90, 1, 1), note(u64::MAX / 960, 0, 0x80, 1, 1)]));
}

#[test]
fn a_file_timed_by_frames_is_refused() {
    let header = vec![0, 0, 0, 1, 0xE7, 40];
    let mut bytes = chunk("MThd", &header);
    bytes.extend(chunk("MTrk", &vec![0x00, 0xFF, 0x2F, 0x00]));
    let error = read_midi_sidecar(&bytes, 48_000).unwrap_err();
    assert_eq!(
        error.to_string(),
        "not a MIDI file this daemon can read: SMPTE-timed files are not supported"
    );
    assert!(matches!(
        read_midi_sidecar(&b"not midi".to_vec(), 48_000),
        Err(MidiReadError::Parse(_))
    ));
    assert_eq!(MidiReadError::Io("gone".into()).to_string(), "gone");
}

#[test]
fn a_frame_rate_of_minus_128_is_spotted_before_the_file_is_read() {
    let mut bytes = chunk("MThd", &vec![0, 0, 0, 1, 0x80, 40]);
    bytes.extend(chunk("MTrk", &vec![0x00, 0xFF, 0x2F, 0x00]));
    assert!(names_odd_rate(&bytes));
    bytes[12] = 0xE7;
    assert!(!names_odd_rate(&bytes));
    assert!(!names_odd_rate(&bytes[..12].to_vec()));
}

#[test]
fn only_a_header_of_its_own_counts_as_one() {
    // "MThd", and the byte 0x80 where a header would have its division.
    let name = "MThd0000000\u{400}";
    assert_eq!(name.as_bytes()[12], 0x80);
    let bytes = build_smf(name, 48_000, &[note(0, 0, 0x90, 60, 100)]);
    assert!(!names_odd_rate(&bytes));
    let back = read_midi_sidecar(&bytes, 48_000).unwrap();
    assert_eq!(back, [SidecarEvent { sample: 0, status: 0x90, data1: 60, data2: 100 }]);

    let inside = chunk("MTrk", &chunk("MThd", &vec![0, 0, 0, 1, 0x80, 40]));
    let mut bytes = chunk("MThd", &vec![0, 0, 0, 1, 1, 0xE0]);
    bytes.extend(inside);
    assert!(!names_odd_rate(&bytes));
}

#[test]
fn an_odd_header_counts_wherever_a_reader_meets_it() {
    let odd = chunk("MThd", &vec![0, 0, 0, 1, 0x80, 40]);
    let usual = chunk("MThd", &vec![0, 1, 0, 1, 1, 0xE0]);
    let track = chunk("MTrk", &vec![0x00, 0xFF, 0x2F, 0x00]);
    let other = chunk("XFIH", &vec![1, 2, 3]);
    assert!(names_odd_rate(&[&usual[..], &track, &other, &odd].concat()));
    assert!(!names_odd_rate(&[&track[..], &odd].concat()), "a track cannot come first");
    assert!(!names_odd_rate(&[&other[..], &odd].concat()), "no MIDI file");
    let unknown = chunk("MThd", &vec![0, 7, 0, 1, 0x80, 40]);
    assert!(!names_odd_rate(&[&unknown[..], &odd].concat()), "an unknown format ends it");
    assert!(!names_odd_rate(&usual[..10].to_vec()));

    let riff = |id: &[u8], data: &[u8]| {
        let mut out = id.to_vec();
        out.extend((data.len() as u32).to_le_bytes());
        out.extend(data);
        out
    };
    let padded = [riff(b"LIST", &[1, 2, 3]), vec![0], riff(b"data", &odd)].concat();
    let wrapped = riff(b"RIFF", &[b"RMID", &padded[..]].concat());
    assert!(names_odd_rate(&wrapped));
    let wave = riff(b"RIFF", &[b"WAVE", &padded[..]].concat());
    assert!(!names_odd_rate(&wave));
}

#[test]
fn what_was_lost_is_told_in_every_sidecar() {
    let (mut tx, rx) = rtrb::RingBuffer::<CapturedMidi>::new(4);
    tx.push(note(0, 0, 0x90, 36, 100)).unwrap();
    let mut sink = MidiSink {
        rx: RingRx::new(rx),
        dropped: Tally::new(Arc::new(AtomicU64::new(3))),
        voices: vec![(0, "Kick".to_string())],
    };
    let files = write_sidecars(48_000, &mut sink).unwrap();
    assert_eq!(files[0].report.dropped_events, 3);
}

#[test]
fn every_kind_of_message_comes_back_from_a_file() {
    let played = [
        note(0, 0, 0x80, 1, 2),
        note(1_000, 0, 0x90, 3, 4),
        note(2_000, 0, 0xA0, 5, 6),
        note(3_000, 0, 0xB0, 7, 8),
        note(4_000, 0, 0xC0, 9, 0),
        note(5_000, 0, 0xD0, 10, 0),
        note(6_000, 0, 0xE0, 11, 12),
    ];
    let back = read_midi_sidecar(&build_smf("All", 48_000, &played), 48_000).unwrap();
    for (read, wrote) in back.iter().zip(&played) {
        assert_eq!((read.status, read.data1, read.data2), (wrote.status, wrote.data1, wrote.data2));
        assert_eq!(read.sample, wrote.sample, "whole ticks come back exactly");
    }
    assert_eq!(back.len(), 7);
}

#[test]
fn a_bend_is_two_seven_bit_halves() {
    assert_eq!(encode(ChannelMessage::PitchBend(0x2000)), (0xE0, 0, 64));
    assert_eq!(encode(ChannelMessage::ProgramChange(4)), (0xC0, 4, 0));
}

#[test]
fn the_tracks_of_a_file_are_merged_in_time() {
    let voice = |delta| SmfStep::Voice {
        delta,
        channel: 2,
        message: midly::MidiMessage::ProgramChange { program: 3.into() },
    };
    let parsed = SmfFile {
        ticks_per_quarter: Some(480),
        tracks: vec![
            vec![voice(960), SmfStep::Other { delta: 5 }],
            vec![SmfStep::Tempo { delta: 0, micros: 250_000 }, voice(960)],
        ],
    };
    let events = events_of(Ok(parsed), 1_000).unwrap();
    let expected = |sample| SidecarEvent { sample, status: 0xC2, data1: 3, data2: 0 };
    assert_eq!(events, [expected(500), expected(1_000)]);
}

#[test]
fn samples_past_64_bits_wrap() {
    assert_eq!(low_bits(u128::from(u64::MAX) + 2), 1);
    assert_eq!(tick_of(50, 0), 50 * TICKS_PER_SECOND, "a rate of nought counts as one");
    assert_eq!(sample_of(960, 500_000, 480, 48_000), 48_000);
}

#[test]
fn a_slug_is_lower_case_words_joined_by_dashes() {
    assert_eq!(file_slug("Kit Kick"), "kit-kick");
    assert_eq!(file_slug("ÄRGER 2"), "ärger-2");
    assert_eq!(dashed("a b", &vec![true, false, true]), "a-b");
}

#[test]
fn numbers_are_padded_to_their_width() {
    let mut out = "take-".to_string();
    push_padded(&mut out, 7, 3);
    assert_eq!(out, "take-007");
    push_padded(&mut out, 12345, 3);
    assert_eq!(out, "take-00712345");
}
