//! The document, its parts and its signal graph.

use tributary::console::bus::{BusKind, BusState};
use tributary::console::db::FADER_MIN_DB;
use tributary::console::eq::{ChannelEq, EqBandKind};
use tributary::console::fx::{FxParams, FxState};
use tributary::console::graph::{
    derive_graph, topo_order, CycleError, Edge, EdgeKind, NodeId, NodeKind, SignalGraph,
};
use tributary::console::id::{BusId, FxId, InstrumentId, StripId, TakeId};
use tributary::console::instrument::{
    gm_drum_splits, InstrumentSplit, InstrumentState, DEFAULT_POLYPHONY,
};
use tributary::console::mix::{MasterState, MixerState};
use tributary::console::output::{
    MidiRoute, MidiSource, OutputJack, OutputPatch, OutputSource,
};
use tributary::console::strip::{
    InputAssign, InputWire, InputWireError, RouteTarget, SendState, SendTap, StripState,
};
use tributary::single::Single;

fn s(value: f32) -> Single {
    Single { bits: value.to_bits() }
}

#[test]
fn bus_as_str_agrees_with_serde_for_every_kind() {
    for (kind, json) in [(BusKind::Group, "\"group\""), (BusKind::Aux, "\"aux\"")] {
        assert_eq!(json, format!("\"{}\"", kind.as_str()));
        assert_eq!(json, serde_json::to_string(kind.as_str()).unwrap());
        assert_eq!(json.trim_matches('"').parse::<BusKind>().unwrap(), kind);
    }
    for kind in BusKind::ALL {
        assert_eq!(kind.as_str().parse::<BusKind>().unwrap(), kind);
    }
    assert_eq!(BusKind::ALL, [BusKind::Group, BusKind::Aux]);
    let error = "send".parse::<BusKind>().unwrap_err();
    assert!(error.to_string().contains("send"));
}

#[test]
fn a_fresh_bus_starts_at_unity() {
    let bus = BusState::new(BusId(0), BusKind::Group, "Drums".into());
    assert_eq!(bus.fader_db, s(0.0));
    assert!(!bus.mute && !bus.pfl);
}

#[test]
fn unknown_band_name_is_a_parse_error() {
    assert!("bell".parse::<EqBandKind>().is_err());
    let error = "mid_fader".parse::<SendTap>().unwrap_err();
    assert_eq!((error.kind, error.value.as_str()), ("send tap", "mid_fader"));
    assert_eq!("bell".parse::<EqBandKind>().unwrap_err().to_string(), "unknown eq band: bell");
}

#[test]
fn eq_as_str_agrees_with_serde_for_every_kind() {
    let kinds = [
        (EqBandKind::LowShelf, "\"low_shelf\""),
        (EqBandKind::Peak, "\"peak\""),
        (EqBandKind::HighShelf, "\"high_shelf\""),
    ];
    for (kind, json) in kinds {
        assert_eq!(json, format!("\"{}\"", kind.as_str()));
        assert_eq!(json, serde_json::to_string(kind.as_str()).unwrap());
        assert_eq!(json.trim_matches('"').parse::<EqBandKind>().unwrap(), kind);
    }
    for kind in EqBandKind::ALL {
        assert_eq!(kind.as_str().parse::<EqBandKind>().unwrap(), kind);
    }
    assert_eq!(EqBandKind::ALL, kinds.map(|(kind, _)| kind));
}

#[test]
fn default_eq_is_flat_and_off() {
    let eq = ChannelEq::default();
    assert!(!eq.enabled, "a fresh channel colors nothing");
    for band in [eq.low, eq.mid, eq.high] {
        assert_eq!(band.gain_db, s(0.0));
    }
    assert_eq!(eq.mid.kind, EqBandKind::Peak);
    assert_eq!(eq.low.freq_hz, s(80.0));
    assert_eq!(eq.high.freq_hz, s(12_000.0));
}

#[test]
fn an_effect_is_named_by_its_kind() {
    assert_eq!(FxParams::default_reverb().kind_str(), "reverb");
    assert_eq!(FxParams::default_delay().kind_str(), "delay");
}

fn console() -> MixerState {
    let mut vocal = StripState::new(StripId(0), "Vocal".into());
    vocal.sends.push(SendState {
        dest: BusId(1),
        level_db: s(-12.0),
        tap: SendTap::PostFader,
    });
    let mut gtr = StripState::new(StripId(1), "Gtr".into());
    gtr.route_to = RouteTarget::Bus { id: BusId(0) };
    MixerState {
        strips: vec![vocal, gtr],
        buses: vec![
            BusState::new(BusId(0), BusKind::Group, "Band".into()),
            BusState::new(BusId(1), BusKind::Aux, "FX Send".into()),
        ],
        fx: vec![FxState {
            id: FxId(0),
            name: "Verb".into(),
            input: BusId(1),
            params: FxParams::default_reverb(),
            return_level_db: s(-6.0),
        }],
        instruments: Vec::new(),
        outputs: Vec::new(),
        master: MasterState::default(),
        ..MixerState::default()
    }
}

#[test]
fn derive_covers_routes_sends_and_returns() {
    let graph = derive_graph(&console());
    // 2 strips + 2 buses + 1 fx + master.
    assert_eq!(graph.nodes.len(), 6);
    // vocal→master, vocal→aux (send), gtr→group, group→master,
    // aux→fx, fx→master.
    assert_eq!(graph.edges.len(), 6);
}

#[test]
fn topo_order_puts_sources_before_sinks() {
    let graph = derive_graph(&console());
    let order = topo_order(&graph).unwrap();
    let position = |kind: NodeKind| {
        order.iter().position(|id| graph.nodes[id.0 as usize] == kind).unwrap()
    };
    assert!(position(NodeKind::Strip(StripId(0))) < position(NodeKind::Master));
    assert!(position(NodeKind::Bus(BusId(1))) < position(NodeKind::Fx(FxId(0))));
    assert!(position(NodeKind::Fx(FxId(0))) < position(NodeKind::Master));
}

#[test]
fn topo_order_is_deterministic() {
    let graph = derive_graph(&console());
    assert_eq!(topo_order(&graph).unwrap(), topo_order(&graph).unwrap());
}

#[test]
fn the_smallest_ready_node_comes_first() {
    let nodes =
        vec![NodeKind::Strip(StripId(0)), NodeKind::Master, NodeKind::Strip(StripId(1))];
    let free = SignalGraph { nodes: nodes[..2].to_vec(), edges: vec![] };
    assert_eq!(topo_order(&free), Ok(vec![NodeId(0), NodeId(1)]));
    let edges = vec![Edge { from: NodeId(2), to: NodeId(0), kind: EdgeKind::Main }];
    let graph = SignalGraph { nodes, edges };
    assert_eq!(topo_order(&graph), Ok(vec![NodeId(1), NodeId(2), NodeId(0)]));
    let desk = derive_graph(&console());
    let in_turn: Vec<NodeId> = (0..desk.nodes.len() as u32).map(NodeId).collect();
    assert_eq!(topo_order(&desk), Ok(in_turn));
}

#[test]
fn a_hand_made_cycle_is_detected() {
    let graph = SignalGraph {
        nodes: vec![NodeKind::Bus(BusId(0)), NodeKind::Bus(BusId(1))],
        edges: vec![
            Edge { from: NodeId(0), to: NodeId(1), kind: EdgeKind::Main },
            Edge { from: NodeId(1), to: NodeId(0), kind: EdgeKind::Main },
        ],
    };
    assert_eq!(topo_order(&graph), Err(CycleError));
    assert!(CycleError.to_string().contains("cycle"));
}

#[test]
fn a_send_to_a_missing_bus_is_dropped_not_fatal() {
    let mut state = console();
    state.strips[0].sends[0].dest = BusId(99);
    let graph = derive_graph(&state);
    assert_eq!(graph.edges.len(), 5, "the dangling send edge vanished");
    assert!(topo_order(&graph).is_ok());
}

#[test]
fn every_edge_of_a_document_leads_downstream() {
    let state = console();
    let graph = derive_graph(&state);
    let kinds: Vec<(BusId, BusKind)> = state.buses.iter().map(|b| (b.id, b.kind)).collect();
    for edge in &graph.edges {
        let from = graph.nodes[edge.from.0 as usize].stage(&kinds);
        let to = graph.nodes[edge.to.0 as usize].stage(&kinds);
        assert!(from < to, "{edge:?}");
    }
}

#[test]
fn display_prints_the_tagged_form() {
    assert_eq!(StripId(3).to_string(), "strip#3");
    assert_eq!(BusId(1).to_string(), "bus#1");
    assert_eq!(FxId(0).to_string(), "fx#0");
    assert_eq!(TakeId(7).to_string(), "take#7");
    assert_eq!(InstrumentId(2).to_string(), "instrument#2");
}

#[test]
fn a_fresh_instrument_points_at_nothing_and_carries_no_effects() {
    let inst = InstrumentState::new(InstrumentId(0), "Rhodes".into());
    assert_eq!(inst.soundfont, None);
    assert_eq!(inst.port, None);
    assert_eq!(inst.midi_channel, None);
    assert_eq!(inst.polyphony, DEFAULT_POLYPHONY);
    assert!(!inst.effects);
}

#[test]
fn an_instrument_listens_to_its_port_and_channel_only() {
    let mut inst = InstrumentState::new(InstrumentId(0), "Rhodes".into());
    assert!(!inst.accepts("keys", 0), "an unbound instrument hears nothing");
    inst.port = Some("keys".into());
    assert!(inst.accepts("keys", 7));
    inst.midi_channel = Some(3);
    assert!(inst.accepts("keys", 3));
    assert!(!inst.accepts("keys", 4));
    assert!(!inst.accepts("pads", 3));
}

#[test]
fn a_kit_has_a_channel_for_each_split() {
    let mut inst = InstrumentState::new(InstrumentId(0), "Kit".into());
    assert_eq!(inst.channels(), 2);
    assert_eq!(inst.channel_names(), vec!["Kit L".to_owned(), "Kit R".to_owned()]);
    inst.splits = gm_drum_splits();
    assert_eq!(inst.channels(), 6);
    assert_eq!(inst.channel_names()[0], "Kit Kick");
    let split = InstrumentSplit::new("Low", &[(10, 20), (40, 40)]);
    assert!(split.covers(10) && split.covers(20) && split.covers(40));
    assert!(!split.covers(9) && !split.covers(21));
}

fn fixture() -> MixerState {
    MixerState {
        strips: vec![
            StripState::new(StripId(0), "Vocal".into()),
            StripState::new(StripId(1), "Guitar".into()),
        ],
        buses: vec![BusState::new(BusId(0), BusKind::Aux, "FX 1".into())],
        fx: vec![FxState {
            id: FxId(0),
            name: "Verb".into(),
            input: BusId(0),
            params: FxParams::default_reverb(),
            return_level_db: s(-6.0),
        }],
        instruments: vec![InstrumentState::new(InstrumentId(0), "Rhodes".into())],
        outputs: vec![OutputPatch::new(
            OutputSource::Master,
            0,
            OutputJack { device: Some("Scarlett".into()), channel: 2 },
        )],
        master: MasterState::default(),
        ..MixerState::default()
    }
}

#[test]
fn source_channels_knows_how_wide_every_source_is() {
    let mut state = fixture();
    state.buses = vec![
        BusState::new(BusId(0), BusKind::Group, "Band".into()),
        BusState::new(BusId(1), BusKind::Aux, "Wedge".into()),
    ];
    assert_eq!(state.source_channels(&OutputSource::Master), Some(2));
    assert_eq!(
        state.source_channels(&OutputSource::Strip { id: StripId(0) }),
        Some(1),
        "a strip is mono: pan places it in the mix, not on the jack"
    );
    assert_eq!(state.source_channels(&OutputSource::Bus { id: BusId(0) }), Some(2));
    assert_eq!(
        state.source_channels(&OutputSource::Bus { id: BusId(1) }),
        Some(1),
        "an aux collects mono sends, so only its left side carries"
    );
    assert_eq!(
        state.source_channels(&OutputSource::Strip { id: StripId(9) }),
        None,
        "a source that is not in the document has no width at all"
    );
}

#[test]
fn next_instrument_id_never_reuses_an_id() {
    let mut state = fixture();
    state.instruments.push(InstrumentState::new(InstrumentId(1), "Bass".into()));
    assert_eq!(state.next_instrument_id(), InstrumentId(2));
    // Removing the first must not hand its id to the next instrument:
    // a strip still patched to it would silently adopt the new one.
    state.instruments.remove(0);
    assert_eq!(state.next_instrument_id(), InstrumentId(2));
}

#[test]
fn lookups_find_by_id_not_position() {
    let state = fixture();
    assert_eq!(state.strip(StripId(1)).unwrap().name, "Guitar");
    assert!(state.strip(StripId(9)).is_none());
    assert_eq!(state.bus(BusId(0)).unwrap().name, "FX 1");
    assert_eq!(state.instrument(InstrumentId(0)).unwrap().name, "Rhodes");
    let jack = OutputJack { device: Some("Scarlett".into()), channel: 2 };
    assert_eq!(state.output(&jack).unwrap().source, OutputSource::Master);
}

#[test]
fn next_strip_id_never_reuses_an_id() {
    let mut state = fixture();
    assert_eq!(state.next_strip_id(), StripId(2));
    state.strips.remove(0);
    assert_eq!(state.next_strip_id(), StripId(2), "gap is not recycled");
    state.strips.clear();
    assert_eq!(state.next_strip_id(), StripId(0));
}

#[test]
fn a_patch_identifies_itself_by_jack_not_by_source() {
    let jack = OutputJack { device: Some("interface".into()), channel: 3 };
    let patch = OutputPatch::new(OutputSource::Strip { id: StripId(7) }, 0, jack.clone());
    assert!(patch.is(&jack));
    assert_eq!(patch.jack(), jack);
    assert!(
        !patch.is(&OutputJack { device: None, channel: 3 }),
        "channel 3 on the default device is a different jack"
    );
}

#[test]
fn a_route_is_known_by_what_it_sends_and_where_not_by_its_channel() {
    let route = MidiRoute {
        port: "synth".into(),
        channel: Some(4),
        source: MidiSource::Instrument { id: InstrumentId(1) },
    };
    assert!(route.is("synth", &MidiSource::Instrument { id: InstrumentId(1) }));
    assert!(!route.is("synth", &MidiSource::Port { name: "keys".into() }));
    assert!(!route.is("other", &MidiSource::Instrument { id: InstrumentId(1) }));
}

#[test]
fn a_fresh_strip_starts_with_the_fader_down() {
    let strip = StripState::new(StripId(1), "Vocal".into());
    assert_eq!(strip.fader_db, Single { bits: FADER_MIN_DB });
    assert_eq!(strip.fader_db, s(-90.0));
    assert!(!strip.mute && !strip.pfl && !strip.record_arm);
    assert_eq!(strip.route_to, RouteTarget::Master);
    assert!(strip.input.is_none());
}

#[test]
fn as_str_agrees_with_serde_for_every_tap() {
    let taps =
        [(SendTap::PreFader, "\"pre_fader\""), (SendTap::PostFader, "\"post_fader\"")];
    for (tap, json) in taps {
        assert_eq!(json, format!("\"{}\"", tap.as_str()));
        assert_eq!(json, serde_json::to_string(tap.as_str()).unwrap());
        assert_eq!(json.trim_matches('"').parse::<SendTap>().unwrap(), tap);
    }
    for tap in SendTap::ALL {
        assert_eq!(tap.as_str().parse::<SendTap>().unwrap(), tap);
    }
    assert_eq!(SendTap::ALL, taps.map(|(tap, _)| tap));
}

fn wire(
    device: Option<&str>,
    device_channel: Option<u16>,
    instrument: Option<u32>,
    channel: Option<u16>,
) -> InputWire {
    InputWire {
        device: device.map(|d| d.to_owned()),
        device_channel,
        instrument: instrument.map(InstrumentId),
        channel,
    }
}

#[test]
fn a_pre_multi_device_patch_still_deserializes_as_the_default_device() {
    let assign = InputAssign::from_wire(wire(None, Some(2), None, None)).unwrap();
    assert_eq!(assign.device_name(), Some(None));
    assert_eq!(assign.channel(), 2);
    // And it goes back without a device, so that it can still be read where
    // only the default device is known.
    assert_eq!(assign.to_wire(), wire(None, Some(2), None, None));
}

#[test]
fn a_named_device_patch_round_trips_with_its_name() {
    let assign = InputAssign::device(Some("Scarlett 18i20 USB".into()), 3);
    let on_the_wire = assign.to_wire();
    assert_eq!(on_the_wire, wire(Some("Scarlett 18i20 USB"), Some(3), None, None));
    assert_eq!(InputAssign::from_wire(on_the_wire).unwrap(), assign);
}

#[test]
fn an_instrument_patch_round_trips_as_its_own_shape() {
    let assign = InputAssign::instrument(InstrumentId(3), 1);
    let on_the_wire = assign.to_wire();
    assert_eq!(on_the_wire, wire(None, None, Some(3), Some(1)));
    let back = InputAssign::from_wire(on_the_wire).unwrap();
    assert_eq!(back, assign);
    assert_eq!(back.instrument_id(), Some(InstrumentId(3)));
    assert_eq!(back.device_name(), None);
    assert_eq!(back.channel(), 1);
}

#[test]
fn a_patch_naming_both_a_device_and_an_instrument_is_refused() {
    let err = InputAssign::from_wire(wire(None, Some(2), Some(1), Some(0))).unwrap_err();
    assert_eq!(err, InputWireError::Both);
    assert!(err.message().contains("not both"), "{}", err.message());
}

#[test]
fn a_patch_naming_neither_is_refused() {
    let err = InputAssign::from_wire(wire(None, None, None, None)).unwrap_err();
    assert_eq!(err, InputWireError::Neither);
    assert!(err.message().contains("device_channel"), "{}", err.message());
}

#[test]
fn an_instrument_patch_without_a_channel_is_refused() {
    let err = InputAssign::from_wire(wire(None, None, Some(1), None)).unwrap_err();
    assert_eq!(err, InputWireError::InstrumentWithoutChannel);
    assert!(err.message().contains("channel"), "{}", err.message());
    let err = InputAssign::from_wire(wire(None, None, None, Some(1))).unwrap_err();
    assert_eq!(err, InputWireError::ChannelWithoutInstrument);
}
