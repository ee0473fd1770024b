//! The instrument rack, with real voices.

use std::io::Cursor;
use std::sync::atomic::AtomicU64;
use std::sync::Arc;

use rtrb::{Producer, RingBuffer};
use rustysynth::SoundFont;
use tributary::console::instrument::CapturedMidi;
use tributary::engine::frame::Stereo;
use tributary::engine::instrument::{
    discard, sub_block, Instrument, InstrumentRack, KeyFilter, MidiBinding, MidiEvent, VoiceError,
    VoiceSpec, MIDI_RING_CAPACITY,
};
use tributary::engine::record::MidiCapture;
use tributary::engine::ring::{RingRx, RingTx, Tally};
use tributary::engine::soundfont::sine_soundfont;
use tributary::engine::voices::{lay_voice, VoicePlace};
use tributary::single::Single;

const SR: u32 = 48_000;

fn s(value: f32) -> Single {
    Single { bits: value.to_bits() }
}

fn soundfont() -> Arc<SoundFont> {
    let mut bytes = Cursor::new(sine_soundfont());
    Arc::new(SoundFont::new(&mut bytes).expect("the fixture must be a valid SoundFont"))
}

fn spec(binding: MidiBinding, keys: KeyFilter) -> VoiceSpec {
    VoiceSpec {
        sample_rate: SR,
        polyphony: 32,
        effects: false,
        bank: 0,
        program: 0,
        binding,
        keys,
    }
}

fn bound_to_port_0() -> MidiBinding {
    MidiBinding { port: Some(0), channel: None }
}

fn voice(sf: &Arc<SoundFont>, binding: MidiBinding, keys: KeyFilter) -> Option<Instrument> {
    match Instrument::new(sf, &spec(binding, keys)) {
        Ok(instrument) => Some(instrument),
        Err(error) => panic!("voice: {}", error.to_string()),
    }
}

fn rack_of(count: usize, binding: MidiBinding) -> InstrumentRack {
    let sf = soundfont();
    let instruments: Vec<Option<Instrument>> =
        (0..count).map(|_| voice(&sf, binding, KeyFilter::all())).collect();
    let widths = vec![2u8; instruments.len()];
    InstrumentRack::new(instruments, widths)
}

fn note_on(port: u8, channel: u8, key: u8) -> MidiEvent {
    MidiEvent { port, channel, status: 0x90, data1: key, data2: 100 }
}

fn midi() -> (Producer<MidiEvent>, RingRx<MidiEvent>) {
    let (tx, rx) = RingBuffer::new(MIDI_RING_CAPACITY);
    (tx, RingRx::new(rx))
}

fn peak(buf: &[f32], channels: usize, channel: usize) -> f32 {
    buf.chunks_exact(channels).map(|frame| frame[channel].abs()).fold(0.0f32, f32::max)
}

/// Applies what waits in the ring and renders the rack, sub-block by sub-block. A
/// slot without a voice is written as silence.
fn render(
    rack: &mut InstrumentRack,
    buf: &mut [f32],
    frames: usize,
    rx: &mut RingRx<MidiEvent>,
) -> usize {
    if !rack.has_channels() {
        discard(rx);
        return 0;
    }
    let channels = rack.channels();
    let mut plane: Vec<Single> = buf.iter().map(|v| s(*v)).collect();
    let mut done = 0;
    while done < frames {
        let chunk = sub_block(frames, done);
        rack.drain(rx, &mut None, 0);
        for slot in 0..rack.instruments.len() {
            let place = rack.place_of(slot);
            let mut left = vec![0.0f32; chunk];
            let mut right = vec![0.0f32; chunk];
            if let Some(instrument) = &mut rack.instruments[slot] {
                instrument.voice.synth.render(&mut left, &mut right);
            }
            let mono = place.width == 1;
            let heard = (0..chunk)
                .map(|i| {
                    let both = 0.5 * (left[i] + right[i]);
                    let (l, r) = if mono { (both, both) } else { (left[i], right[i]) };
                    Stereo { l: s(l), r: s(r) }
                })
                .collect();
            lay_voice(&mut plane, place, done, &heard);
        }
        done += chunk;
    }
    for (out, sample) in buf.iter_mut().zip(&plane) {
        *out = f32::from_bits(sample.bits);
    }
    channels
}

#[test]
fn the_fixture_is_a_valid_soundfont_with_one_preset() {
    let sf = soundfont();
    assert_eq!(sf.get_presets().len(), 1);
    assert_eq!(sf.get_presets()[0].get_name(), "Sine");
}

#[test]
fn an_empty_rack_reports_no_channels_and_renders_nothing() {
    let mut rack = InstrumentRack::default();
    let (_tx, mut rx) = midi();
    let mut buf = [0.0f32; 256];
    assert_eq!(render(&mut rack, &mut buf, 128, &mut rx), 0);
    assert_eq!(rack.channels(), 0);
    assert!(rack.is_empty());
    assert!(buf.iter().all(|&v| v == 0.0));
}

#[test]
fn an_empty_rack_still_drains_the_ring_rather_than_hoarding_history() {
    let mut rack = InstrumentRack::default();
    let (mut tx, mut rx) = midi();
    tx.push(note_on(0, 0, 60)).unwrap();
    let mut buf = [0.0f32; 256];
    render(&mut rack, &mut buf, 128, &mut rx);
    assert!(rx.pop().is_none(), "the event should have been consumed");
}

#[test]
fn a_note_on_reaches_only_its_own_instruments_stereo_pair() {
    let mut rack = rack_of(2, bound_to_port_0());
    // The second instrument listens to a port that nothing sends to.
    rack.instruments[1].as_mut().unwrap().binding = MidiBinding { port: Some(1), channel: None };
    let (mut tx, mut rx) = midi();
    tx.push(note_on(0, 0, 78)).unwrap();

    let mut buf = vec![0.0f32; 256 * 4];
    let channels = render(&mut rack, &mut buf, 256, &mut rx);

    assert_eq!(channels, 4);
    assert!(peak(&buf, channels, 0) > 0.0, "instrument 0 left is silent");
    assert!(peak(&buf, channels, 1) > 0.0, "instrument 0 right is silent");
    assert_eq!(peak(&buf, channels, 2), 0.0, "instrument 1 should not hear port 0");
    assert_eq!(peak(&buf, channels, 3), 0.0, "instrument 1 should not hear port 0");
}

#[test]
fn a_split_kit_puts_each_drum_on_its_own_mono_channel() {
    let sf = soundfont();
    let split = |ranges: &[(u8, u8)]| {
        voice(&sf, bound_to_port_0(), KeyFilter { ranges: ranges.to_vec() })
    };
    // Kick on 36, hats on the interleaved 42/44/46.
    let mut rack = InstrumentRack::new(
        vec![split(&[(35, 36)]), split(&[(42, 42), (44, 44), (46, 46)])],
        vec![1, 1],
    );
    assert_eq!(rack.channels(), 2, "two drums, two mono faders");

    let (mut tx, mut rx) = midi();
    tx.push(note_on(0, 0, 36)).unwrap();
    let mut buf = vec![0.0f32; 256 * 2];
    let channels = render(&mut rack, &mut buf, 256, &mut rx);

    assert!(peak(&buf, channels, 0) > 0.0, "the kick sounded");
    assert_eq!(peak(&buf, channels, 1), 0.0, "the hats stayed silent");

    buf.fill(0.0);
    tx.push(note_on(0, 0, 44)).unwrap();
    render(&mut rack, &mut buf, 256, &mut rx);
    assert!(peak(&buf, channels, 1) > 0.0, "the hat sounded");
}

#[test]
fn a_key_no_split_covers_is_silent_everywhere() {
    let sf = soundfont();
    let kick = voice(&sf, bound_to_port_0(), KeyFilter { ranges: vec![(35, 36)] });
    let mut rack = InstrumentRack::new(vec![kick], vec![1]);
    let (mut tx, mut rx) = midi();
    tx.push(note_on(0, 0, 60)).unwrap();
    let mut buf = vec![0.0f32; 256];
    let channels = render(&mut rack, &mut buf, 256, &mut rx);
    assert_eq!(peak(&buf, channels, 0), 0.0);
}

#[test]
fn an_instrument_that_failed_to_load_still_holds_its_slot() {
    let sf = soundfont();
    let mut rack = InstrumentRack::new(
        vec![None, voice(&sf, bound_to_port_0(), KeyFilter::all())],
        vec![2, 2],
    );
    assert_eq!(rack.channels(), 4, "the dead slot still costs two channels");

    let (mut tx, mut rx) = midi();
    tx.push(note_on(0, 0, 78)).unwrap();
    let mut buf = vec![0.0f32; 256 * 4];
    let channels = render(&mut rack, &mut buf, 256, &mut rx);

    assert_eq!(peak(&buf, channels, 0), 0.0, "the dead slot is silent");
    assert_eq!(peak(&buf, channels, 1), 0.0);
    assert!(peak(&buf, channels, 2) > 0.0, "the live one kept its place");
}

#[test]
fn an_event_on_an_unbound_port_or_channel_is_dropped_not_misrouted() {
    let mut rack = rack_of(1, MidiBinding { port: Some(0), channel: Some(3) });
    let (mut tx, mut rx) = midi();
    tx.push(note_on(0, 9, 78)).unwrap(); // right port, wrong channel
    tx.push(note_on(1, 3, 78)).unwrap(); // right channel, wrong port

    let mut buf = vec![0.0f32; 256 * 2];
    let channels = render(&mut rack, &mut buf, 256, &mut rx);
    assert_eq!(peak(&buf, channels, 0), 0.0);
}

#[test]
fn an_omni_instrument_accepts_every_channel_on_its_port() {
    for channel in 0..16u8 {
        let mut rack = rack_of(1, bound_to_port_0());
        let (mut tx, mut rx) = midi();
        tx.push(note_on(0, channel, 78)).unwrap();
        let mut buf = vec![0.0f32; 256 * 2];
        let channels = render(&mut rack, &mut buf, 256, &mut rx);
        assert!(
            peak(&buf, channels, 0) > 0.0,
            "omni should have accepted channel {channel}"
        );
    }
}

#[test]
fn all_notes_off_silences_a_held_note() {
    let mut rack = rack_of(1, bound_to_port_0());
    let (mut tx, mut rx) = midi();
    tx.push(note_on(0, 0, 78)).unwrap();
    let mut buf = vec![0.0f32; 256 * 2];
    render(&mut rack, &mut buf, 256, &mut rx);

    rack.all_notes_off();
    // The release takes about a millisecond: give it a block to fall away.
    render(&mut rack, &mut buf, 256, &mut rx);
    buf.fill(0.0);
    let channels = render(&mut rack, &mut buf, 256, &mut rx);
    assert_eq!(peak(&buf, channels, 0), 0.0);
}

#[test]
fn a_render_shorter_than_a_sub_block_still_advances_the_synth() {
    let mut rack = rack_of(1, bound_to_port_0());
    let (mut tx, mut rx) = midi();
    tx.push(note_on(0, 0, 78)).unwrap();
    let mut buf = vec![0.0f32; 7 * 2];
    let channels = render(&mut rack, &mut buf, 7, &mut rx);
    assert_eq!(channels, 2);
}

#[test]
fn a_take_captures_what_a_voice_played_and_nothing_else() {
    let mut rack = rack_of(2, bound_to_port_0());
    rack.instruments[0].as_mut().unwrap().binding = MidiBinding { port: Some(1), channel: None };
    let (mut tx, mut rx) = midi();
    tx.push(note_on(0, 5, 78)).unwrap();
    tx.push(note_on(7, 0, 40)).unwrap();
    let (take_tx, mut take_rx) = RingBuffer::<CapturedMidi>::new(8);
    let tally = Tally::new(Arc::new(AtomicU64::new(0)));
    let mut capture = Some(Box::new(MidiCapture::new(RingTx::new(take_tx), tally)));
    rack.drain(&mut rx, &mut capture, 96);
    assert_eq!(
        take_rx.pop(),
        Ok(CapturedMidi { sample: 96, instrument: 1, status: 0x90, data1: 78, data2: 100 })
    );
    assert!(take_rx.pop().is_err());
}

#[test]
fn a_voice_that_cannot_be_made_says_why() {
    let sf = soundfont();
    let mut bad = spec(bound_to_port_0(), KeyFilter::all());
    bad.sample_rate = 1;
    let error = Instrument::new(&sf, &bad).err().unwrap();
    assert_eq!(error, VoiceError::SampleRateOutOfRange(1));
    let mut bad = spec(bound_to_port_0(), KeyFilter::all());
    bad.polyphony = 1;
    let error = Instrument::new(&sf, &bad).err().unwrap();
    assert_eq!(error, VoiceError::MaximumPolyphonyOutOfRange(1));
    assert!(!error.to_string().is_empty());
}

#[test]
fn keys_are_covered_by_their_ranges() {
    let keys = KeyFilter { ranges: vec![(10, 12), (20, 20)] };
    assert!(keys.is_split());
    assert!(keys.covers(10) && keys.covers(12) && keys.covers(20));
    assert!(!keys.covers(13) && !keys.covers(19));
    assert!(!KeyFilter::all().is_split());
    assert!(KeyFilter::all().covers(0) && KeyFilter::all().covers(127));
    assert_eq!(sub_block(100, 64), 36);
    assert_eq!(sub_block(200, 64), 64);
}

#[test]
fn a_dead_slot_is_written_as_silence_not_left_stale() {
    let mut rack = InstrumentRack::new(vec![None], vec![2]);
    let (_tx, mut rx) = midi();
    let mut buf = vec![0.7f32; 256 * 2];
    let channels = render(&mut rack, &mut buf, 256, &mut rx);
    assert_eq!(channels, 2);
    assert!(buf.iter().all(|&v| v == 0.0));
}

#[test]
fn a_voice_lies_in_its_own_channels() {
    let place = VoicePlace { channels: 4, base: 1, width: 2 };
    let mut plane = vec![s(9.0); 12];
    let heard = vec![Stereo { l: s(1.0), r: s(2.0) }, Stereo { l: s(3.0), r: s(4.0) }];
    lay_voice(&mut plane, place, 1, &heard);
    let nine = s(9.0);
    assert_eq!(plane[..5], [nine, nine, nine, nine, nine]);
    assert_eq!(plane[5..8], [s(1.0), s(2.0), nine]);
    assert_eq!(plane[8..], [nine, s(3.0), s(4.0), nine]);
}
