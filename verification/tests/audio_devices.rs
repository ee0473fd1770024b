//! Cards, servers and clocks.

use std::cell::RefCell;

use tributary::audio::backend::{
    AudioError, OpenInput, OpenOutput, RealtimeStatus, Scheduling,
};
use tributary::audio::duplex::{
    after_resume, card_channels, check_rate, gather_playback, how_to_start, lay_capture,
    next_format, pace, remedy, second_card_error, AlsaBackend, CardHealth, OpenedCard, PcmState,
    Remedy, Routing, SampleFormat, Start, Waking, EAGAIN, EPIPE, ESTRPIPE,
};
use tributary::audio::probe::choose_card;
use tributary::audio::pulse::{
    describe_card, describe_source, parec_args, parse_cards, parse_channels, parse_sources,
    take_frames,
};
use tributary::audio::realtime::{posture, settle, Limits, RT_PRIORITY};
use tributary::audio::stall::{Monitor, MonitorKeeper, StallWatch, Transition, WorstBlock};
use tributary::audio::streams::{
    raw_input, raw_output, ring_samples, tone_device, CpalBackend, OpenStreams, ToneStream,
};
use tributary::engine::slots::MAX_INPUT_CHANNELS;
use tributary::json::parse_json;
use tributary::single::Single;

fn s(value: f32) -> Single {
    Single { bits: value.to_bits() }
}

#[test]
fn card_health_never_holds_a_card_and_an_error_at_once() {
    let card = OpenedCard { name: "hw:1".into(), in_channels: 10, out_channels: 12 };
    let mut health = CardHealth::default();
    assert_eq!(health.generation, 0);

    health.went_down("hw:0 (Capture): No such file or directory".into());
    assert!(health.opened.is_none());
    assert!(health.last_error.as_deref().is_some_and(|e| e.contains("hw:0")));
    assert_eq!(health.generation, 1);

    health.came_up(card.clone());
    assert_eq!(health.opened.as_ref(), Some(&card));
    assert!(health.last_error.is_none(), "coming up clears the reason it was down");
    assert_eq!(health.generation, 2);

    health.went_down("EPIPE".into());
    assert!(health.opened.is_none(), "going down clears the card");
    assert_eq!(health.generation, 3, "every transition moves the generation");
}

#[test]
fn a_card_that_is_down_has_nothing_to_patch_and_says_why() {
    let mut backend = AlsaBackend::new(Some("hw:99".into()));
    backend.health.went_down("hw:99: No such file or directory".into());
    assert!(backend.input_device().is_none());
    assert!(backend.output_device().is_none());
    let status = backend.status();
    assert!(!status.running);
    assert_eq!(status.card, None);
    assert!(status.error.as_deref().is_some_and(|e| e.contains("hw:99")));
    assert_eq!(backend.generation(), 1, "the failed open is a transition");

    backend.health.came_up(OpenedCard { name: "hw:1".into(), in_channels: 4, out_channels: 6 });
    assert_eq!(backend.opened().map(|c| c.out_channels), Some(6));
    assert_eq!(backend.input_device().map(|d| d.channels), Some(4));
    assert_eq!(backend.output_device().map(|d| d.channels), Some(6));
    assert!(backend.status().running);
}

#[test]
fn a_second_card_is_refused_with_the_reason() {
    let error = second_card_error("hw:1");
    let text = error.to_string();
    assert!(text.contains("hw:1"));
    assert!(
        text.contains("own clock"),
        "the refusal has to say WHY, or it reads as a missing feature"
    );
}

fn input(device: Option<&str>, channels: u16, offset: u16) -> OpenInput {
    OpenInput {
        device: device.map(|d| d.to_owned()),
        channels,
        offset,
        pulse: false,
        channel_map: None,
    }
}

#[test]
fn one_card_opens_once_and_closes_again() {
    let mut health = CardHealth::default();
    let mut routing = Routing::default();
    assert!(routing.open_input(&health, &input(None, 2, 0)).is_err(), "no card, no input");
    health.came_up(OpenedCard { name: "hw:1".into(), in_channels: 2, out_channels: 2 });
    assert!(routing.open_input(&health, &input(Some("hw:1"), 2, 4)).is_ok());
    assert!(routing.input_open);
    assert_eq!(routing.input_offset, 4);
    assert!(routing.open_input(&health, &input(Some("hw:7"), 2, 0)).is_err(), "another card");
    assert_eq!(routing.input_status(&health, false, 3).map(|st| st.underruns), Some(3));
    routing.close_input();
    assert!(routing.input_status(&health, false, 0).is_none());

    let out = OpenOutput {
        device: Some("hw:1".into()),
        channels: 2,
        offset: 2,
        pulse: false,
        channel_map: None,
    };
    assert!(routing.open_output(&health, &out).is_ok());
    let status = routing.output_status(&health, true, 1, 2, 3).unwrap();
    assert_eq!((status.underruns, status.xruns, status.worst_block_us), (1, 2, 3));
    assert!(status.failed);
    routing.close_output();
    assert!(!routing.output_open);
}

#[test]
fn a_block_moves_between_the_card_and_the_frame_at_its_offset() {
    let mut routing = Routing::default();
    let mut health = CardHealth::default();
    health.came_up(OpenedCard { name: "c".into(), in_channels: 2, out_channels: 2 });
    assert!(routing.open_input(&health, &input(None, 2, 3)).is_ok());
    let mut frame = vec![s(9.0); 2 * MAX_INPUT_CHANNELS];
    let block = vec![s(1.0), s(2.0), s(3.0), s(4.0)];
    lay_capture(&mut frame, &block, 2, 2, routing);
    assert_eq!(frame[3], s(1.0));
    assert_eq!(frame[4], s(2.0));
    assert_eq!(frame[0], s(0.0));
    assert_eq!(frame[MAX_INPUT_CHANNELS + 4], s(4.0));

    let out = OpenOutput {
        device: None,
        channels: 2,
        offset: 3,
        pulse: false,
        channel_map: None,
    };
    assert!(routing.open_output(&health, &out).is_ok());
    let mut back = vec![s(9.0); 8];
    gather_playback(&frame, &mut back, 2, 4, routing);
    let zero = s(0.0);
    assert_eq!(back, [zero, zero, s(1.0), s(2.0), zero, zero, s(3.0), s(4.0)]);
}

#[test]
fn formats_are_tried_from_the_wide_one_down() {
    assert_eq!(next_format(None), Some(SampleFormat::S32));
    assert_eq!(next_format(Some(SampleFormat::S32)), Some(SampleFormat::S16));
    assert_eq!(next_format(Some(SampleFormat::S16)), None);
}

#[test]
fn a_rate_that_did_not_land_is_refused() {
    assert!(check_rate(48_000, 48_000).is_ok());
    let error = check_rate(44_100, 48_000).unwrap_err();
    assert!(matches!(error, AudioError::Device(_) | AudioError::Stream(_)));
    assert!(error.to_string().contains("44100"));
    assert!(card_channels(2) == 2 && card_channels(1_000) == 64);
}

#[test]
fn an_xrun_is_prepared_away_and_a_suspend_is_resumed() {
    assert_eq!(remedy(EPIPE), Remedy::Prepare);
    assert_eq!(remedy(ESTRPIPE), Remedy::Resume);
    assert_eq!(remedy(5), Remedy::GiveUp);
    assert_eq!(after_resume(0, None), Waking::Awake);
    assert_eq!(after_resume(0, Some(EAGAIN)), Waking::Wait);
    assert_eq!(after_resume(0, Some(5)), Waking::Prepare);
}

#[test]
fn the_timer_clock_keeps_its_pace() {
    // On time: the wait, and one block on.
    assert_eq!(pace(1_000, 900, 500), (100, 1_500));
}

fn names(list: &[&str]) -> Vec<String> {
    list.iter().map(|n| (*n).to_owned()).collect()
}

#[test]
fn the_first_card_that_opens_wins_and_later_ones_are_never_tried() {
    let tried = RefCell::new(Vec::new());
    let result = choose_card(names(&["hw:0", "hw:1", "hw:2"]), |name: &str| {
        tried.borrow_mut().push(name.to_owned());
        if name == "hw:1" {
            Ok(10u16)
        } else {
            Err("No such file or directory".to_owned())
        }
    });
    assert_eq!(result, Ok(("hw:1".to_owned(), 10)));
    assert_eq!(
        tried.into_inner(),
        names(&["hw:0", "hw:1"]),
        "opening takes the card; a later candidate must not be touched"
    );
}

#[test]
fn every_refusal_is_named_in_order_when_nothing_opens() {
    let result = choose_card::<(), _>(names(&["hw:0", "hw:1"]), |name: &str| {
        Err(if name == "hw:0" {
            "No such file or directory".to_owned()
        } else {
            "Device or resource busy".to_owned()
        })
    });
    let text = result.unwrap_err();
    assert!(text.starts_with("no ALSA card opened duplex"), "{text}");
    let first = text.find("hw:0: No such file or directory").expect("names hw:0");
    let second = text.find("hw:1: Device or resource busy").expect("names hw:1");
    assert!(first < second, "attempts read in the order they were made");
}

#[test]
fn an_empty_candidate_list_says_so_rather_than_listing_nothing() {
    let result = choose_card::<(), _>(Vec::new(), |_: &str| unreachable!());
    assert_eq!(result.unwrap_err(), "no ALSA cards present");
}

const FIXTURE: &str = r#"[
      {"name":"alsa_output.pci.hdmi.monitor","description":"Monitor of HDMI Output","sample_specification":"s32le 2ch 48000Hz"},
      {"name":"alsa_input.pci.mic","description":"Meteor Lake-P HD Audio Controller Digital Microphone","sample_specification":"s32le 2ch 48000Hz"},
      {"name":"alsa_input.usb-046d_C922.analog-stereo","description":"C922 Pro Stream Webcam Analog Stereo","sample_specification":"s16le 2ch 32000Hz","channel_map":"front-left,front-right","properties":{"device.name":"alsa_card.usb-046d_C922","device.bus":"usb"}},
      {"name":"alsa_input.usb-Dock.mono-fallback","description":"ThinkPad Thunderbolt 4 Dock USB Audio Mono","sample_specification":"s16le 1ch 48000Hz"}
    ]"#;

const CARDS: &str = r#"[
      {
        "name": "alsa_card.usb-Behringer_UMC1820",
        "active_profile": "input:analog-stereo",
        "profiles": {
          "off": {"description":"Off","sinks":0,"sources":0,"priority":0,"available":true},
          "input:analog-stereo": {"description":"Analog Stereo Input","sinks":0,"sources":1,"priority":65,"available":true},
          "output:analog-stereo": {"description":"Analog Stereo Output","sinks":1,"sources":0,"priority":60,"available":true},
          "pro-audio": {"description":"Pro Audio","sinks":1,"sources":1,"priority":1,"available":true},
          "input:unplugged": {"description":"Unplugged Input","sinks":0,"sources":1,"priority":50,"available":false}
        }
      }
    ]"#;

#[test]
fn parses_the_system_menu_sources_and_drops_monitors() {
    let sources = parse_sources(FIXTURE, "alsa_input.usb-046d_C922.analog-stereo").unwrap();
    assert_eq!(sources.len(), 3, "the sink monitor is not an input");
    assert_eq!(
        sources[0].description,
        "Meteor Lake-P HD Audio Controller Digital Microphone"
    );
    assert_eq!(sources[1].channels, 2);
    assert!(sources[1].default, "the C922 is the system default");
    assert_eq!(sources[2].channels, 1, "the dock input is mono");
    assert!(!sources[2].default);
}

#[test]
fn garbage_json_is_none_not_a_panic() {
    assert!(parse_sources("not json", "x").is_none());
    assert!(parse_sources("{}", "x").is_none());
}

#[test]
fn channel_specs_parse_defensively() {
    assert_eq!(parse_channels("s16le 2ch 32000Hz"), Some(2));
    assert_eq!(parse_channels("float32le 8ch 96000Hz"), Some(8));
    assert_eq!(parse_channels("weird spec"), None);
}

#[test]
fn a_source_carries_its_card_and_channel_map() {
    let sources = parse_sources(FIXTURE, "").unwrap();
    let webcam = &sources[1];
    assert_eq!(
        webcam.card.as_deref(),
        Some("alsa_card.usb-046d_C922"),
        "the card is the source's `device.name` property, not its own name"
    );
    assert_eq!(webcam.channel_map.as_deref(), Some("front-left,front-right"));
    assert_eq!(sources[0].card, None, "absent properties are not an error");
}

#[test]
fn a_muted_or_attenuated_source_says_so() {
    let json = r#"[
          {"name":"muted","description":"Muted","sample_specification":"s16le 2ch 48000Hz",
           "mute":true,
           "volume":{"front-left":{"value":65536},"front-right":{"value":65536}}},
          {"name":"lopsided","description":"One channel down","sample_specification":"s16le 2ch 48000Hz",
           "mute":false,
           "volume":{"front-left":{"value":65536},"front-right":{"value":32768}}}
        ]"#;
    let sources = parse_sources(json, "").unwrap();
    assert!(sources[0].muted);
    assert_eq!(sources[0].volume_percent, Some(100));
    assert!(!sources[1].muted);
    assert_eq!(
        sources[1].volume_percent,
        Some(50),
        "the quietest channel, not the average: an input is only as \
         audible as its quietest channel"
    );
}

#[test]
fn a_source_that_reports_no_volume_is_not_assumed_muted() {
    let sources = parse_sources(FIXTURE, "").unwrap();
    assert!(!sources[0].muted);
    assert_eq!(
        sources[0].volume_percent, None,
        "unknown is not zero — a device that never reported a volume \
         must not read as silenced"
    );
}

#[test]
fn a_source_with_an_unusable_spec_is_dropped_not_defaulted() {
    let json = r#"[
          {"name":"good","description":"Good","sample_specification":"s16le 2ch 48000Hz"},
          {"name":"bad","description":"Bad","sample_specification":"who knows"}
        ]"#;
    let sources = parse_sources(json, "").unwrap();
    assert_eq!(sources.len(), 1);
    assert_eq!(sources[0].name, "good");
}

#[test]
fn only_capture_capable_profiles_are_offered() {
    let cards = parse_cards(CARDS).unwrap();
    assert_eq!(cards.len(), 1);
    assert_eq!(cards[0].name, "alsa_card.usb-Behringer_UMC1820");
    assert_eq!(cards[0].active_profile, "input:analog-stereo");
    let offered: Vec<&str> = cards[0].profiles.iter().map(|p| p.name.as_str()).collect();
    assert_eq!(
        offered,
        vec!["input:analog-stereo", "pro-audio"],
        "off, output-only and unavailable profiles would leave no input at all; \
         order follows the server's priority, like the system sound panel"
    );
    assert_eq!(cards[0].profiles[1].description, "Pro Audio");
}

#[test]
fn card_garbage_is_none_not_a_panic() {
    assert!(parse_cards("not json").is_none());
    assert!(parse_cards("{}").is_none());
    assert_eq!(parse_cards("[]").unwrap().len(), 0);
}

#[test]
fn capture_opens_in_the_sources_own_channel_positions() {
    let map = "aux0,aux1,aux2,aux3,aux4,aux5,aux6,aux7,aux8,aux9";
    let args = parec_args(Some("umc.pro-input-0"), 10, 48_000, Some(map));
    assert!(
        args.contains(&format!("--channel-map={map}")),
        "without this the server invents front-left/front-left-of-center/… \
         and drops every position the source does not share: {args:?}"
    );
}

#[test]
fn a_channel_map_that_does_not_match_the_width_is_refused() {
    let args = parec_args(Some("dev"), 10, 48_000, Some("aux0,aux1"));
    assert!(!args.iter().any(|a| a.starts_with("--channel-map=")));
    let args = parec_args(Some("dev"), 2, 48_000, Some("front-left,front-right"));
    assert!(args.contains(&"--channel-map=front-left,front-right".to_owned()));
}

#[test]
fn an_unknown_channel_map_is_simply_omitted() {
    let args = parec_args(Some("dev"), 4, 48_000, None);
    assert!(!args.iter().any(|a| a.starts_with("--channel-map=")));
    assert!(args.iter().any(|a| a == "--no-remap"));
}

#[test]
fn capture_routes_channels_by_index_not_by_position_name() {
    let args = parec_args(Some("alsa_input.usb-umc1820.pro-audio"), 18, 48_000, None);
    assert!(
        args.iter().any(|a| a == "--no-remap"),
        "without --no-remap the server routes by position name: it \
         synthesises a map for N channels and a source's channel 1 \
         lands on stream channel 3, the rest silent"
    );
    assert!(
        args.iter().any(|a| a == "--no-remix"),
        "without --no-remix absent positions are synthesised from \
         their neighbours instead of staying silent"
    );
    assert!(args.contains(&"--channels=18".to_owned()));
    assert!(args.contains(&"--rate=48000".to_owned()));
    assert!(args.contains(&"--device=alsa_input.usb-umc1820.pro-audio".to_owned()));
}

#[test]
fn the_default_source_is_followed_by_omitting_device() {
    let args = parec_args(None, 2, 44_100, None);
    assert!(
        !args.iter().any(|a| a.starts_with("--device=")),
        "parec with no --device tracks the server default live"
    );
}

#[test]
fn bytes_are_carried_until_a_frame_is_whole() {
    let mut carry: Vec<u8> = Vec::new();
    carry.extend_from_slice(&0.5f32.to_le_bytes());
    carry.extend_from_slice(&[1, 2]);
    assert_eq!(take_frames(&mut carry, 2), Vec::new());
    assert_eq!(carry.len(), 6);
    carry.truncate(4);
    carry.extend_from_slice(&(-0.5f32).to_le_bytes());
    carry.push(7);
    assert_eq!(take_frames(&mut carry, 2), vec![s(0.5), s(-0.5)]);
    assert_eq!(carry, vec![7]);
}

#[test]
fn a_source_and_a_card_are_described_as_devices() {
    let mut sources = parse_sources(FIXTURE, "").unwrap();
    let device = describe_source(sources.remove(1));
    assert_eq!(device.name, "alsa_input.usb-046d_C922.analog-stereo");
    assert_eq!(device.channels, 2);
    assert!(device.pulse);
    let mut cards = parse_cards(CARDS).unwrap();
    let card = describe_card(cards.remove(0));
    assert_eq!(card.profiles.len(), 2);
}

#[test]
fn a_json_document_is_read_field_by_field() {
    let json = parse_json(r#"{"a":"text","b":true,"c":7,"d":-7}"#).unwrap();
    assert_eq!(json.get_str("a"), Some("text"));
    assert_eq!(json.get("b").and_then(|b| b.as_bool()), Some(true));
    assert_eq!(json.get("c").and_then(|c| c.as_u64()), Some(7));
    assert_eq!(json.get("d").and_then(|d| d.as_i64()), Some(-7));
    assert!(json.get("e").is_none());
    assert!(parse_json("{").is_none());
}

#[test]
fn no_rtprio_degrades_to_other_scheduling_and_says_how_to_fix_it() {
    let status = posture(Limits { rtprio: 0, memlock: None });
    assert_eq!(status.scheduling, Scheduling::Other);
    assert!(status.priority.is_none());
    assert!(!status.memory_locked, "no point locking without RT anyway");
    let reason = status.reason.unwrap();
    assert!(reason.contains("RLIMIT_RTPRIO"));
    assert!(reason.contains("LimitRTPRIO"), "name the fix, not the fault");
}

#[test]
fn a_small_memlock_limit_skips_locking_rather_than_failing_to_boot() {
    let status = posture(Limits { rtprio: 95, memlock: Some(64 * 1024) });
    assert_eq!(status.scheduling, Scheduling::Fifo);
    assert_eq!(status.priority, Some(RT_PRIORITY));
    assert!(!status.memory_locked);
    assert!(status.reason.unwrap().contains("LimitMEMLOCK"));
}

#[test]
fn a_fully_granted_machine_says_nothing_at_all() {
    let status = posture(Limits { rtprio: 95, memlock: None });
    assert_eq!(status.scheduling, Scheduling::Fifo);
    assert!(status.memory_locked);
    assert!(status.reason.is_none());
}

#[test]
fn what_the_system_refused_after_all_is_taken_back() {
    let status: RealtimeStatus = settle(posture(Limits { rtprio: 95, memlock: None }), false, true);
    assert_eq!(status.scheduling, Scheduling::Other);
    assert!(status.reason.is_some(), "a shortfall is explained");
}

const MILLI: u64 = 1_000_000;

#[test]
fn a_beating_stream_never_reports() {
    let start: u64 = 77;
    let mut watch = StallWatch::new(start);
    for i in 1..50u64 {
        assert_eq!(watch.observe(i, start + i * 100 * MILLI), None);
    }
}

#[test]
fn silence_past_the_threshold_reports_stalled_once() {
    let start: u64 = 77;
    let mut watch = StallWatch::new(start);
    assert_eq!(watch.observe(1, start + 100 * MILLI), None);
    assert_eq!(watch.observe(1, start + 1_000 * MILLI), None, "under threshold");
    assert_eq!(watch.observe(1, start + 2_200 * MILLI), Some(Transition::Stalled));
    assert_eq!(watch.observe(1, start + 3_000 * MILLI), None, "no repeat");
}

#[test]
fn a_stream_that_never_beats_reports_stalled() {
    // A stream that was never built is the same as one that hangs.
    let start: u64 = 77;
    let mut watch = StallWatch::new(start);
    assert_eq!(watch.observe(0, start + 100 * MILLI), None, "under threshold");
    assert_eq!(watch.observe(0, start + 2_200 * MILLI), Some(Transition::Stalled));
    assert_eq!(watch.observe(0, start + 60_000 * MILLI), None, "no repeat");
}

#[test]
fn the_first_beat_ever_after_a_boot_stall_resumes_with_the_full_outage() {
    let start: u64 = 77;
    let mut watch = StallWatch::new(start);
    assert_eq!(watch.observe(0, start + 2_500 * MILLI), Some(Transition::Stalled));
    let resumed = watch.observe(1, start + 30_000 * MILLI);
    let Some(Transition::Resumed(outage)) = resumed else {
        panic!("expected resume, got {resumed:?}");
    };
    let secs = outage as f32 / 1e9;
    assert!(
        (29.9..=30.1).contains(&secs),
        "outage spans back to thread start, got {secs}"
    );
}

#[test]
fn the_first_beat_after_a_stall_reports_the_outage_length() {
    let start: u64 = 77;
    let mut watch = StallWatch::new(start);
    assert_eq!(watch.observe(1, start + 100 * MILLI), None);
    assert_eq!(watch.observe(1, start + 2_500 * MILLI), Some(Transition::Stalled));
    let resumed = watch.observe(2, start + 5_100 * MILLI);
    let Some(Transition::Resumed(outage)) = resumed else {
        panic!("expected resume, got {resumed:?}");
    };
    let secs = outage as f32 / 1e9;
    assert!(
        (4.9..=5.1).contains(&secs),
        "outage spans back to the last beat, got {secs}"
    );
    assert_eq!(watch.observe(3, start + 5_200 * MILLI), None, "healthy again");
}

#[test]
fn a_stalled_monitor_is_rebuilt_every_five_seconds() {
    let mut keeper = MonitorKeeper::new(0);
    assert_eq!(keeper.look(0, 2_500 * MILLI), Monitor::Stalled);
    assert!(!keeper.due(2_600 * MILLI));
    assert!(keeper.due(7_600 * MILLI));
    keeper.tried(7_600 * MILLI);
    assert!(!keeper.due(7_700 * MILLI));
    assert!(matches!(keeper.look(1, 8_000 * MILLI), Monitor::Resumed(_)));
    assert!(!keeper.due(90_000 * MILLI));
}

#[test]
fn a_device_opens_once_and_closes_with_its_offset() {
    let mut streams = OpenStreams::default();
    let device = Some("mic".to_owned());
    assert!(!streams.is_open(&device));
    assert!(streams.opened(&device, 6));
    assert!(streams.is_open(&device));
    assert!(!streams.opened(&device, 9), "an open device is not opened again");
    assert_eq!(streams.closed(&device), Some(6));
    assert_eq!(streams.closed(&device), None);
}

#[test]
fn the_tone_stream_holds_one_input() {
    let mut tone = ToneStream::default();
    assert!(tone.input_status().is_none());
    assert!(tone.open_input(input(None, 2, 0)).is_ok());
    assert_eq!(tone.input_status().map(|st| st.channels), Some(2));
    tone.close_input(None);
    assert!(tone.input_status().is_none());
    assert!(tone_device().channels > 0);
    assert!(ring_samples(256, 2) >= 512);
    assert_eq!(CpalBackend.name(), "cpal");
}

#[test]
fn a_pair_is_filled_before_it_is_started() {
    assert_eq!(how_to_start(PcmState::Running, PcmState::Stopped), Start::Running);
    assert_eq!(
        how_to_start(PcmState::Prepared, PcmState::Prepared),
        Start::Fill { prepare: false }
    );
    assert_eq!(
        how_to_start(PcmState::Stopped, PcmState::Stopped),
        Start::Fill { prepare: true }
    );
}

#[test]
fn the_slowest_block_of_a_second_is_told() {
    let second = 1_000_000_000;
    let mut watch = WorstBlock::new(5);
    assert_eq!(watch.note(120, 10), None);
    assert_eq!(watch.note(300, second), None);
    assert_eq!(watch.note(80, second + 5), Some(300));
    assert_eq!(watch, WorstBlock { worst: 0, since: second + 5 });
    assert_eq!(watch.note(7, second + 6), None);
}

#[test]
fn the_default_device_is_the_active_one() {
    let default = Some("dock".to_string());
    assert!(raw_input("dock".into(), 4, &default).active);
    let other = raw_input("umc".into(), 10, &default);
    assert!(!other.active && other.channels == 10 && !other.pulse);
    assert!(!raw_input("dock".into(), 4, &None).active);
    let out = raw_output("dock".into(), 6, &default);
    assert!(out.active && out.channels == 6 && out.monitor_channels == 0);
}
