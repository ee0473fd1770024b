//! FLAC, written by the library and read by an independent decoder.

use std::io::Cursor;

use tributary::project::flac::{
    samples_to_skip, FlacError, FlacInfo, FlacTrackEncoder, SampleFeed, BLOCK_FRAMES,
    STREAMINFO_OFFSET,
};
use tributary::single::Single;

/// A sample as an integer of so many bits, clamped at full scale.
fn quantize(value: f32, bits: u8) -> i32 {
    let full = (1_i64 << (bits - 1)) as f32 - 1.0;
    (value.clamp(-1.0, 1.0) * full).round() as i32
}

/// A deterministic full-scale-ish test signal.
fn signal(frames: usize, channels: usize) -> Vec<f32> {
    (0..frames * channels).map(|i| ((i as f32) * 0.001).sin() * 0.8).collect()
}

/// The file that the samples make.
fn encode(samples: &[f32], channels: u16, bits: u8) -> Vec<u8> {
    let (mut encoder, mut file) = FlacTrackEncoder::create(channels, 48_000, bits).unwrap();
    for &sample in samples {
        if let Some(frame) = encoder.write_sample(quantize(sample, bits)).unwrap() {
            file.extend(frame);
        }
    }
    let (tail, info) = encoder.finalize().unwrap();
    if let Some(frame) = tail {
        file.extend(frame);
    }
    let at = STREAMINFO_OFFSET as usize;
    file[at..at + info.len()].copy_from_slice(&info);
    file
}

/// What the decoder makes of a file.
fn decode(file: Vec<u8>) -> (Vec<f32>, FlacInfo) {
    decode_from(file, 0)
}

/// What the decoder makes of a file from some frame on.
fn decode_from(file: Vec<u8>, start: u64) -> (Vec<f32>, FlacInfo) {
    let stream = symphonia::core::io::MediaSourceStream::new(Box::new(Cursor::new(file)), Default::default());
    let mut reader =
        symphonia::default::formats::FlacReader::try_new(stream, Default::default()).unwrap();
    let audio = symphonia::core::formats::TrackType::Audio;
    let track =
        symphonia::core::formats::FormatReader::default_track(&reader, audio).unwrap();
    let track_id = track.id;
    let frames = track.num_frames.unwrap();
    let params = match &track.codec_params {
        Some(symphonia::core::codecs::CodecParameters::Audio(params)) => params.clone(),
        _ => panic!("no audio parameters"),
    };
    let info = FlacInfo {
        frames,
        channels: params.channels.as_ref().map(|c| c.count() as u16).unwrap_or(1),
        sample_rate: params.sample_rate.unwrap(),
        bits: params.bits_per_sample.unwrap() as u16,
    };
    let mut decoder =
        symphonia::default::codecs::FlacDecoder::try_new(&params, &Default::default()).unwrap();
    let mut skip = 0;
    if start > 0 {
        let to = symphonia::core::formats::SeekTo::Timestamp {
            ts: symphonia::core::units::Timestamp::new(start as i64),
            track_id,
        };
        let seeked = symphonia::core::formats::FormatReader::seek(
            &mut reader,
            symphonia::core::formats::SeekMode::Accurate,
            to,
        )
        .unwrap();
        skip = samples_to_skip(start, seeked.actual_ts.get(), info.channels);
    }
    let mut feed = SampleFeed::new(skip);
    let mut out = Vec::new();
    while let Ok(Some(packet)) =
        symphonia::core::formats::FormatReader::next_packet(&mut reader)
    {
        let decoded =
            symphonia::core::codecs::audio::AudioDecoder::decode(&mut decoder, &packet).unwrap();
        let mut block = vec![0.0f32; decoded.samples_interleaved()];
        decoded.copy_to_slice_interleaved(&mut block);
        feed.load(block.iter().map(|v| Single { bits: v.to_bits() }).collect());
        while let Some(sample) = feed.next() {
            out.push(f32::from_bits(sample.bits));
        }
    }
    (out, info)
}

fn assert_round_trip(samples: &[f32], decoded: &[f32], bits: u8) {
    assert_eq!(decoded.len(), samples.len());
    let scale = (1_i64 << (bits - 1)) as f32;
    for (i, (&input, &output)) in samples.iter().zip(decoded).enumerate() {
        let expected = quantize(input, bits) as f32 / scale;
        assert!((output - expected).abs() < 1e-4, "sample {i}: {output} != {expected}");
    }
}

#[test]
fn a_multi_block_stereo_take_round_trips_at_16_bits() {
    // 2.5 blocks: multi-frame plus a partial tail.
    let samples = signal(BLOCK_FRAMES * 5 / 2, 2);
    assert_round_trip(&samples, &decode(encode(&samples, 2, 16)).0, 16);
}

#[test]
fn a_mono_take_round_trips_at_24_bits() {
    let samples = signal(BLOCK_FRAMES + 100, 1);
    assert_round_trip(&samples, &decode(encode(&samples, 1, 24)).0, 24);
}

#[test]
fn a_short_take_is_a_single_partial_frame() {
    let samples = signal(100, 1);
    assert_round_trip(&samples, &decode(encode(&samples, 1, 16)).0, 16);
}

#[test]
fn finalize_patches_the_frame_count_into_streaminfo() {
    let frames = BLOCK_FRAMES * 2 + 7;
    let (_, info) = decode(encode(&signal(frames, 2), 2, 16));
    assert_eq!(info.frames, frames as u64);
    assert_eq!(info.channels, 2);
    assert_eq!(info.sample_rate, 48_000);
    assert_eq!(info.bits, 16);
}

#[test]
fn the_header_is_a_flac_magic() {
    let bytes = encode(&signal(10, 1), 1, 16);
    assert_eq!(&bytes[..4], b"fLaC");
    assert_eq!(bytes[4], 0x80, "one metadata block: STREAMINFO, last");
}

#[test]
fn the_digest_is_the_md5_of_the_samples() {
    let (encoder, _) = FlacTrackEncoder::create(1, 48_000, 16).unwrap();
    let (tail, info) = encoder.finalize().unwrap();
    assert!(tail.is_none());
    // The MD5 digest of nothing.
    assert_eq!(
        info[info.len() - 16..],
        [
            0xd4, 0x1d, 0x8c, 0xd9, 0x8f, 0x00, 0xb2, 0x04, 0xe9, 0x80, 0x09, 0x98, 0xec, 0xf8,
            0x42, 0x7e
        ]
    );
    let (mut encoder, _) = FlacTrackEncoder::create(1, 48_000, 16).unwrap();
    // 0x6261 is the bytes of "ab".
    assert!(encoder.write_sample(0x6261).unwrap().is_none());
    let (tail, info) = encoder.finalize().unwrap();
    assert!(tail.is_some());
    assert_eq!(
        info[info.len() - 16..],
        [
            0x18, 0x7e, 0xf4, 0x43, 0x61, 0x22, 0xd1, 0xcc, 0x2f, 0x40, 0xdc, 0x2b, 0x92, 0xf0,
            0xeb, 0xa0
        ]
    );
}

#[test]
fn streams_that_the_format_cannot_hold_are_refused() {
    assert!(matches!(FlacTrackEncoder::create(256, 48_000, 16), Err(FlacError::TooManyChannels)));
    assert!(matches!(FlacTrackEncoder::create(9, 48_000, 16), Err(FlacError::Encode(_))));
    assert!(matches!(FlacTrackEncoder::create(0, 48_000, 16), Err(FlacError::Encode(_))));
    assert!(!FlacError::TooManyChannels.to_string().is_empty());
}

#[test]
fn a_tail_of_a_few_frames_reads_back() {
    for frames in [1, 2, 5, 31, 32, 63, 64, BLOCK_FRAMES + 1] {
        for channels in [1, 2, 3] {
            let samples = signal(frames, usize::from(channels));
            let file = encode(&samples, channels, 24);
            assert_round_trip(&samples, &decode(file).0, 24);
        }
    }
}

#[test]
fn samples_out_of_range_are_refused() {
    let (mut encoder, _) = FlacTrackEncoder::create(1, 48_000, 16).unwrap();
    assert!(matches!(encoder.write_sample(32_768), Ok(None)));
    assert!(matches!(encoder.finalize(), Err(FlacError::Encode(_))));
    let (mut encoder, _) = FlacTrackEncoder::create(1, 48_000, 16).unwrap();
    assert!(matches!(encoder.write_sample(-32_768), Ok(None)));
    assert!(encoder.finalize().is_ok());
}

#[test]
fn a_frame_number_of_more_than_thirty_one_bits_is_refused() {
    for (number, taken) in [(0x7FFF_FFFF, true), (0x8000_0000, false)] {
        let (mut encoder, _) = FlacTrackEncoder::create(1, 48_000, 16).unwrap();
        encoder.frame_number = number;
        assert!(matches!(encoder.write_sample(7), Ok(None)));
        assert_eq!(encoder.finalize().is_ok(), taken);
    }
}

#[test]
fn a_seek_that_landed_early_skips_the_difference() {
    assert_eq!(samples_to_skip(5_000, 4_096, 2), 1_808);
    assert_eq!(samples_to_skip(100, 200, 2), 0);
    assert_eq!(samples_to_skip(100, -5, 1), 100);
}

#[test]
fn a_feed_drops_across_packets() {
    let at = |bits: u32| Single { bits };
    let mut feed = SampleFeed::new(3);
    assert_eq!(feed.next(), None);
    feed.load(vec![at(0), at(1)]);
    assert_eq!(feed.next(), None);
    feed.load(vec![at(2), at(3), at(4)]);
    assert_eq!(feed.next(), Some(at(3)));
    assert_eq!(feed.next(), Some(at(4)));
    assert_eq!(feed.next(), None);
    feed.load(vec![at(5)]);
    assert_eq!(feed.next(), Some(at(5)));
}

#[test]
fn opening_at_a_start_frame_seeks_to_it() {
    // A ramp readable by position: frame i quantizes to i (16-bit).
    let frames = BLOCK_FRAMES * 2;
    let samples: Vec<f32> = (0..frames).map(|i| i as f32 / 32_767.0).collect();
    let file = encode(&samples, 1, 16);
    for start in [0_u64, 1, 4095, 4096, 5000] {
        let (decoded, _) = decode_from(file.clone(), start);
        let frame = (decoded[0] * 32_768.0).round() as u64;
        assert_eq!(frame, start, "seek to {start} landed at {frame}");
        assert_eq!(decoded.len() as u64, frames as u64 - start);
    }
}
