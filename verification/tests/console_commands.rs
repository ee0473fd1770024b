//! Commands against the document: what they change, and what they refuse.

use tributary::console::bus::{BusKind, BusState};
use tributary::console::command::{
    FaderTarget, MixCommand, MixError, ReconcileNeed, StateDelta, MAX_INSTRUMENTS, MAX_STRIPS,
};
use tributary::console::eq::EqBandKind;
use tributary::console::fx::{FxParams, FxState};
use tributary::console::id::{BusId, FxId, InstrumentId, StripId};
use tributary::console::instrument::{gm_drum_splits, InstrumentSplit, InstrumentState};
use tributary::console::mix::MixerState;
use tributary::console::output::{OutputJack, OutputPatch, OutputSource};
use tributary::console::reduce::{apply, Applied};
use tributary::console::strip::{InputAssign, RouteTarget, SendTap, StripState};
use tributary::single::Single;

fn s(value: f32) -> Single {
    Single { bits: value.to_bits() }
}

fn state() -> MixerState {
    MixerState {
        strips: vec![StripState::new(StripId(0), "Ch 1".into())],
        ..MixerState::default()
    }
}

fn ok(command: MixCommand) -> Applied {
    apply(&state(), command).unwrap()
}

fn jack(channel: u16) -> OutputJack {
    OutputJack {
        device: Some("interface".into()),
        channel,
    }
}

fn out_patch(source: OutputSource, source_channel: u16, channel: u16) -> OutputPatch {
    OutputPatch::new(source, source_channel, jack(channel))
}

#[test]
fn patching_an_output_replaces_whatever_was_on_that_jack() {
    let mut state = state();
    state
        .strips
        .push(StripState::new(StripId(1), "Ch 2".into()));
    let (state, ..) = apply(
        &state,
        MixCommand::SetOutputPatch {
            patch: out_patch(OutputSource::Strip { id: StripId(0) }, 0, 3),
        },
    )
    .unwrap();
    let (state, ..) = apply(
        &state,
        MixCommand::SetOutputPatch {
            patch: out_patch(OutputSource::Strip { id: StripId(1) }, 0, 3),
        },
    )
    .unwrap();
    assert_eq!(state.outputs.len(), 1, "one jack holds at most one feed");
    assert_eq!(
        state.output(&jack(3)).unwrap().source,
        OutputSource::Strip { id: StripId(1) }
    );
}

#[test]
fn one_source_may_feed_several_output_channels() {
    // The mirror invariant. An upsert keyed on the SOURCE instead of
    // the JACK would silently destroy this.
    let source = OutputSource::Strip { id: StripId(0) };
    let (state, ..) = apply(
        &state(),
        MixCommand::SetOutputPatch {
            patch: out_patch(source, 0, 3),
        },
    )
    .unwrap();
    let (state, ..) = apply(
        &state,
        MixCommand::SetOutputPatch {
            patch: out_patch(source, 0, 4),
        },
    )
    .unwrap();
    assert_eq!(state.outputs.len(), 2);
}

#[test]
fn an_output_patched_past_its_sources_channels_is_refused() {
    let mut state = state();
    state
        .buses
        .push(BusState::new(BusId(0), BusKind::Aux, "Wedge".into()));
    // An aux bus is mono; channel 1 is not a thing it has.
    assert!(matches!(
        apply(
            &state,
            MixCommand::SetOutputPatch {
                patch: out_patch(OutputSource::Bus { id: BusId(0) }, 1, 3),
            },
        ),
        Err(MixError::OutOfRange {
            field: "source_channel",
            ..
        })
    ));
    assert!(matches!(
        apply(
            &state,
            MixCommand::SetOutputPatch {
                patch: out_patch(OutputSource::Strip { id: StripId(9) }, 0, 3),
            },
        ),
        Err(MixError::UnknownTarget(_))
    ));
}

#[test]
fn removing_a_strip_unpatches_the_outputs_it_fed_and_says_which() {
    let (state, ..) = apply(
        &state(),
        MixCommand::SetOutputPatch {
            patch: out_patch(OutputSource::Strip { id: StripId(0) }, 0, 5),
        },
    )
    .unwrap();
    let (next, delta, _) = apply(&state, MixCommand::RemoveStrip { id: StripId(0) }).unwrap();
    assert!(next.outputs.is_empty(), "the patch went with the strip");
    assert_eq!(
        delta,
        StateDelta::StripRemoved {
            id: StripId(0),
            unpatched_outputs: vec![jack(5)],
        },
        "the console needs to be able to say what else just went quiet"
    );
}

#[test]
fn removing_a_bus_unpatches_its_outputs_rather_than_refusing() {
    // Deliberately unlike the FX guard: an FX unit is a document object
    // with nowhere else to live, an output patch is a wire.
    let mut state = state();
    state
        .buses
        .push(BusState::new(BusId(0), BusKind::Group, "Band".into()));
    let (state, ..) = apply(
        &state,
        MixCommand::SetOutputPatch {
            patch: out_patch(OutputSource::Bus { id: BusId(0) }, 1, 6),
        },
    )
    .unwrap();
    let (next, delta, _) = apply(&state, MixCommand::RemoveBus { id: BusId(0) }).unwrap();
    assert!(next.outputs.is_empty());
    assert_eq!(
        delta,
        StateDelta::BusRemoved {
            id: BusId(0),
            unpatched_outputs: vec![jack(6)],
        }
    );
}

#[test]
fn re_tapping_an_output_is_a_parameter_move_and_re_wiring_is_not() {
    let patch = out_patch(OutputSource::Master, 0, 1);
    let (state, _, need) = apply(&state(), MixCommand::SetOutputPatch { patch }).unwrap();
    assert_eq!(need, ReconcileNeed::Topology);

    let (state, delta, need) = apply(
        &state,
        MixCommand::SetOutputTap {
            jack: jack(1),
            tap: SendTap::PostFader,
        },
    )
    .unwrap();
    assert_eq!(need, ReconcileNeed::ParamOnly);
    assert_eq!(
        delta,
        StateDelta::OutputTap {
            jack: jack(1),
            tap: SendTap::PostFader
        }
    );
    assert_eq!(state.output(&jack(1)).unwrap().tap, SendTap::PostFader);
}

#[test]
fn only_the_output_tap_recompiles_nothing_while_every_other_topology_change_stops_the_tape() {
    // The drift guard. `ReconcileNeed` answers "does the engine need a
    // recompile"; `stops_the_tape` answers "does the tape refuse this".
    // They agree everywhere today, and the day they stop agreeing it
    // must be because somebody decided so — not because a new variant
    // was added and nobody looked.
    let mut state = state();
    state
        .buses
        .push(BusState::new(BusId(0), BusKind::Aux, "Wedge".into()));
    state
        .instruments
        .push(InstrumentState::new(InstrumentId(0), "Rhodes".into()));
    state.outputs.push(out_patch(OutputSource::Master, 0, 1));

    for command in every_command_shape() {
        let Ok((_, _, need)) = apply(&state, command.clone()) else {
            continue;
        };
        assert_eq!(
            command.stops_the_tape(),
            need == ReconcileNeed::Topology,
            "{command:?}: the two questions disagree, and nothing says why"
        );
    }
}

/// One of every `MixCommand` variant, valid against the fixture above.
/// Adding a variant without adding it here leaves the drift guard
/// silently weaker, so the match below is exhaustive on purpose.
fn every_command_shape() -> Vec<MixCommand> {
    let strip = StripId(0);
    let bus = BusId(0);
    let id = InstrumentId(0);
    let target = FaderTarget::Strip { id: strip };
    vec![
        MixCommand::SetFader {
            target,
            level_db: s(-6.0),
        },
        MixCommand::SetGain {
            strip,
            gain_db: s(3.0),
        },
        MixCommand::SetEqBand {
            strip,
            band: EqBandKind::Peak,
            freq_hz: s(1000.0),
            gain_db: s(0.0),
            q: s(1.0),
        },
        MixCommand::SetEqEnabled {
            strip,
            enabled: true,
        },
        MixCommand::SetPan { strip, pan: s(0.5) },
        MixCommand::SetMute { target, mute: true },
        MixCommand::SetPfl { target, on: true },
        MixCommand::SetInput { strip, input: None },
        MixCommand::Rename {
            target,
            name: "Kick".into(),
        },
        MixCommand::AddStrip { name: None },
        MixCommand::RemoveStrip { id: strip },
        MixCommand::SetSend {
            strip,
            dest: bus,
            level_db: s(-6.0),
            tap: SendTap::PreFader,
        },
        MixCommand::SetRoute {
            strip,
            to: RouteTarget::Master,
        },
        MixCommand::SetFxParams {
            fx: FxId(0),
            params: FxParams::default_reverb(),
        },
        MixCommand::SetFxReturn {
            fx: FxId(0),
            level_db: s(-6.0),
        },
        MixCommand::AddBus {
            kind: BusKind::Aux,
            name: None,
        },
        MixCommand::RemoveBus { id: bus },
        MixCommand::SetRecordArm {
            target,
            armed: true,
        },
        MixCommand::SetRecordArmAll { armed: true },
        MixCommand::AddInstrument { name: None },
        MixCommand::RemoveInstrument { id },
        MixCommand::SetInstrumentVoice {
            id,
            soundfont: None,
            polyphony: 64,
            effects: true,
        },
        MixCommand::SetInstrumentPerformance {
            id,
            name: "Rhodes".into(),
            bank: 0,
            program: 4,
            port: None,
            midi_channel: None,
        },
        MixCommand::SetInstrumentSplits {
            id,
            splits: Vec::new(),
        },
        MixCommand::AddInstrumentStrips { id },
        MixCommand::SetOutputPatch {
            patch: out_patch(OutputSource::Master, 1, 7),
        },
        MixCommand::ClearOutputPatch { jack: jack(1) },
        MixCommand::SetOutputTap {
            jack: jack(1),
            tap: SendTap::PostFader,
        },
    ]
}

#[test]
fn set_fader_moves_only_the_target() {
    let (next, delta, need) = ok(MixCommand::SetFader {
        target: FaderTarget::Strip { id: StripId(0) },
        level_db: s(-6.0),
    });
    assert_eq!(next.strips[0].fader_db, s(-6.0));
    assert_eq!(next.master.fader_db, s(0.0), "master untouched");
    assert!(matches!(delta, StateDelta::Fader { .. }));
    assert_eq!(need, ReconcileNeed::ParamOnly);
}

#[test]
fn out_of_range_and_nan_levels_are_refused() {
    for bad in [11.0, -91.0, f32::NAN] {
        assert!(
            apply(
                &state(),
                MixCommand::SetFader {
                    target: FaderTarget::Master,
                    level_db: s(bad),
                },
            )
            .is_err(),
            "{bad} must be refused"
        );
    }
}

#[test]
fn eq_band_updates_the_addressed_slot() {
    let (next, _, need) = ok(MixCommand::SetEqBand {
        strip: StripId(0),
        band: EqBandKind::Peak,
        freq_hz: s(1200.0),
        gain_db: s(4.0),
        q: s(0.9),
    });
    assert_eq!(next.strips[0].eq.mid.freq_hz, s(1200.0));
    assert_eq!(next.strips[0].eq.mid.gain_db, s(4.0));
    assert_eq!(next.strips[0].eq.low.gain_db, s(0.0), "other bands untouched");
    assert_eq!(need, ReconcileNeed::ParamOnly);
}

#[test]
fn eq_gain_beyond_the_knob_range_is_refused() {
    assert!(
        apply(
            &state(),
            MixCommand::SetEqBand {
                strip: StripId(0),
                band: EqBandKind::HighShelf,
                freq_hz: s(12_000.0),
                gain_db: s(16.0),
                q: s(0.71),
            },
        )
        .is_err()
    );
}

#[test]
fn master_mute_pfl_and_rename_are_refused() {
    for command in [
        MixCommand::SetMute {
            target: FaderTarget::Master,
            mute: true,
        },
        MixCommand::SetPfl {
            target: FaderTarget::Master,
            on: true,
        },
        MixCommand::Rename {
            target: FaderTarget::Master,
            name: "x".into(),
        },
    ] {
        assert!(matches!(
            apply(&state(), command),
            Err(MixError::Unsupported(_))
        ));
    }
}

#[test]
fn input_patching_needs_a_recompile() {
    let (next, _, need) = ok(MixCommand::SetInput {
        strip: StripId(0),
        input: Some(InputAssign::device(None, 3)),
    });
    assert_eq!(next.strips[0].input, Some(InputAssign::device(None, 3)));
    assert_eq!(need, ReconcileNeed::Topology);
}

#[test]
fn add_strip_defaults_the_name_and_never_reuses_ids() {
    let (next, delta, need) = ok(MixCommand::AddStrip { name: None });
    assert_eq!(next.strips.len(), 2);
    assert_eq!(next.strips[1].name, "Ch 2");
    assert_eq!(need, ReconcileNeed::Topology);
    let StateDelta::StripAdded { strip } = delta else {
        panic!("wrong delta")
    };
    assert_eq!(strip.id, StripId(1));
    assert_eq!(
        strip.route_to,
        RouteTarget::Master,
        "fresh strips route to master"
    );
}

#[test]
fn a_full_console_refuses_another_strip() {
    let mut full = state();
    while full.strips.len() < MAX_STRIPS {
        (full, _, _) = apply(&full, MixCommand::AddStrip { name: None }).unwrap();
    }
    assert!(matches!(
        apply(&full, MixCommand::AddStrip { name: None }),
        Err(MixError::Unsupported(_))
    ));
}

#[test]
fn remove_strip_refuses_unknown_ids() {
    let (next, _, _) = ok(MixCommand::RemoveStrip { id: StripId(0) });
    assert!(next.strips.is_empty());
    assert!(apply(&state(), MixCommand::RemoveStrip { id: StripId(7) }).is_err());
}

#[test]
fn rename_trims_and_bounds_the_tape() {
    let (next, _, _) = ok(MixCommand::Rename {
        target: FaderTarget::Strip { id: StripId(0) },
        name: "  Kick  ".into(),
    });
    assert_eq!(next.strips[0].name, "Kick");
    assert!(
        apply(
            &state(),
            MixCommand::Rename {
                target: FaderTarget::Strip { id: StripId(0) },
                name: "   ".into(),
            },
        )
        .is_err()
    );
    assert!(
        apply(
            &state(),
            MixCommand::Rename {
                target: FaderTarget::Strip { id: StripId(0) },
                name: "x".repeat(61),
            },
        )
        .is_err()
    );
}

#[test]
fn the_input_state_is_never_mutated() {
    let original = state();
    let _ = apply(
        &original,
        MixCommand::SetFader {
            target: FaderTarget::Master,
            level_db: s(-12.0),
        },
    );
    assert_eq!(original.master.fader_db, s(0.0));
}

fn state_with_buses() -> MixerState {
    MixerState {
        strips: vec![StripState::new(StripId(0), "Ch 1".into())],
        buses: vec![
            BusState::new(BusId(0), BusKind::Aux, "FX 1".into()),
            BusState::new(BusId(1), BusKind::Group, "Band".into()),
        ],
        fx: vec![FxState {
            id: FxId(0),
            name: "Verb".into(),
            input: BusId(0),
            params: FxParams::default_reverb(),
            return_level_db: s(-6.0),
        }],
        ..MixerState::default()
    }
}

#[test]
fn set_send_upserts_and_targets_aux_only() {
    let base = state_with_buses();
    let (next, _, need) = apply(
        &base,
        MixCommand::SetSend {
            strip: StripId(0),
            dest: BusId(0),
            level_db: s(-12.0),
            tap: SendTap::PostFader,
        },
    )
    .unwrap();
    assert_eq!(next.strips[0].sends.len(), 1);
    assert_eq!(need, ReconcileNeed::ParamOnly);
    let (again, _, _) = apply(
        &next,
        MixCommand::SetSend {
            strip: StripId(0),
            dest: BusId(0),
            level_db: s(-6.0),
            tap: SendTap::PreFader,
        },
    )
    .unwrap();
    assert_eq!(again.strips[0].sends.len(), 1, "upsert, not append");
    assert_eq!(again.strips[0].sends[0].level_db, s(-6.0));
    assert!(matches!(
        apply(
            &base,
            MixCommand::SetSend {
                strip: StripId(0),
                dest: BusId(1),
                level_db: s(0.0),
                tap: SendTap::PostFader,
            },
        ),
        Err(MixError::Unsupported(_))
    ));
}

#[test]
fn routing_targets_groups_only_and_recompiles() {
    let base = state_with_buses();
    let (next, _, need) = apply(
        &base,
        MixCommand::SetRoute {
            strip: StripId(0),
            to: RouteTarget::Bus { id: BusId(1) },
        },
    )
    .unwrap();
    assert_eq!(next.strips[0].route_to, RouteTarget::Bus { id: BusId(1) });
    assert_eq!(need, ReconcileNeed::Topology);
    assert!(matches!(
        apply(
            &base,
            MixCommand::SetRoute {
                strip: StripId(0),
                to: RouteTarget::Bus { id: BusId(0) },
            },
        ),
        Err(MixError::Unsupported(_))
    ));
}

#[test]
fn fx_params_validate_and_cannot_change_kind() {
    let base = state_with_buses();
    let (next, _, need) = apply(
        &base,
        MixCommand::SetFxParams {
            fx: FxId(0),
            params: FxParams::Reverb {
                room_size: s(0.8),
                damping: s(0.3),
            },
        },
    )
    .unwrap();
    assert_eq!(need, ReconcileNeed::ParamOnly);
    assert!(
        matches!(next.fx[0].params, FxParams::Reverb { room_size, .. } if room_size == s(0.8))
    );
    assert!(
        apply(
            &base,
            MixCommand::SetFxParams {
                fx: FxId(0),
                params: FxParams::default_delay(),
            },
        )
        .is_err(),
        "a reverb stays a reverb"
    );
}

#[test]
fn removing_a_bus_heals_routes_and_sends_but_protects_fx_feeds() {
    let base = state_with_buses();
    let (routed, _, _) = apply(
        &base,
        MixCommand::SetRoute {
            strip: StripId(0),
            to: RouteTarget::Bus { id: BusId(1) },
        },
    )
    .unwrap();
    let (healed, _, _) = apply(&routed, MixCommand::RemoveBus { id: BusId(1) }).unwrap();
    assert_eq!(healed.strips[0].route_to, RouteTarget::Master);
    assert!(matches!(
        apply(&base, MixCommand::RemoveBus { id: BusId(0) }),
        Err(MixError::Unsupported(_)),
    ));
}

#[test]
fn adding_an_instrument_needs_a_recompile_and_names_itself() {
    let (next, delta, need) = ok(MixCommand::AddInstrument { name: None });
    assert_eq!(next.instruments.len(), 1);
    assert_eq!(next.instruments[0].name, "Inst 1");
    assert_eq!(need, ReconcileNeed::Topology);
    assert!(matches!(delta, StateDelta::InstrumentAdded { .. }));
}

#[test]
fn the_rack_refuses_to_grow_past_its_ceiling() {
    let mut state = state();
    for i in 0..MAX_INSTRUMENTS {
        state.instruments.push(InstrumentState::new(
            InstrumentId(i as u32),
            format!("Inst {i}"),
        ));
    }
    assert!(matches!(
        apply(&state, MixCommand::AddInstrument { name: None }),
        Err(MixError::Unsupported(_))
    ));
}

#[test]
fn changing_a_preset_is_a_parameter_move_not_a_recompile() {
    // The user-facing rule: changing the sound stops the tape, changing
    // the patch does not. Reloading a soundfont rebuilds the synth;
    // choosing a preset is a MIDI message to a running one.
    let (state, _, _) = ok(MixCommand::AddInstrument { name: None });
    let (_, _, need) = apply(
        &state,
        MixCommand::SetInstrumentPerformance {
            id: InstrumentId(0),
            name: "Rhodes".into(),
            bank: 0,
            program: 4,
            port: None,
            midi_channel: None,
        },
    )
    .unwrap();
    assert_eq!(need, ReconcileNeed::ParamOnly);

    let (_, _, need) = apply(
        &state,
        MixCommand::SetInstrumentVoice {
            id: InstrumentId(0),
            soundfont: Some("piano.sf2".into()),
            polyphony: 32,
            effects: false,
        },
    )
    .unwrap();
    assert_eq!(need, ReconcileNeed::Topology);
}

#[test]
fn removing_an_instrument_heals_the_strips_that_pointed_at_it() {
    // Same rule as a removed bus: a strip left patched at something
    // that no longer exists is silence the patchbay cannot explain.
    let (mut state, _, _) = ok(MixCommand::AddInstrument { name: None });
    state.strips[0].input = Some(InputAssign::instrument(InstrumentId(0), 0));
    let (healed, delta, need) = apply(
        &state,
        MixCommand::RemoveInstrument {
            id: InstrumentId(0),
        },
    )
    .unwrap();
    assert!(healed.strips[0].input.is_none());
    assert_eq!(need, ReconcileNeed::Topology);
    let StateDelta::InstrumentRemoved { unpatched, .. } = delta else {
        panic!("expected an InstrumentRemoved");
    };
    assert_eq!(unpatched, vec![StripId(0)]);
}

#[test]
fn removing_an_instrument_leaves_device_patches_alone() {
    let (mut state, _, _) = ok(MixCommand::AddInstrument { name: None });
    state.strips[0].input = Some(InputAssign::device(Some("dock".into()), 1));
    let (healed, _, _) = apply(
        &state,
        MixCommand::RemoveInstrument {
            id: InstrumentId(0),
        },
    )
    .unwrap();
    assert_eq!(
        healed.strips[0].input,
        Some(InputAssign::device(Some("dock".into()), 1))
    );
}

#[test]
fn an_out_of_range_polyphony_or_channel_is_refused() {
    let (state, _, _) = ok(MixCommand::AddInstrument { name: None });
    assert!(matches!(
        apply(
            &state,
            MixCommand::SetInstrumentVoice {
                id: InstrumentId(0),
                soundfont: None,
                polyphony: 0,
                effects: false,
            }
        ),
        Err(MixError::OutOfRange { .. })
    ));
    assert!(matches!(
        apply(
            &state,
            MixCommand::SetInstrumentPerformance {
                id: InstrumentId(0),
                name: "Rhodes".into(),
                bank: 0,
                program: 0,
                port: None,
                midi_channel: Some(16),
            }
        ),
        Err(MixError::OutOfRange { .. })
    ));
}

#[test]
fn adding_all_channels_puts_a_named_patched_strip_on_every_output() {
    // The drum-kit setup move: six pieces, six faders, ready to pan.
    let (mut state, _, _) = ok(MixCommand::AddInstrument {
        name: Some("Kit".into()),
    });
    state.instruments[0].splits = gm_drum_splits();
    let before = state.strips.len();

    let (next, delta, need) = apply(
        &state,
        MixCommand::AddInstrumentStrips {
            id: InstrumentId(0),
        },
    )
    .unwrap();

    assert_eq!(need, ReconcileNeed::Topology);
    assert_eq!(next.strips.len(), before + 6);
    assert_eq!(next.strips[before].name, "Kit Kick");
    assert_eq!(
        next.strips[before].input,
        Some(InputAssign::instrument(InstrumentId(0), 0))
    );
    assert_eq!(next.strips[before + 3].name, "Kit HiHat");
    let StateDelta::InstrumentStripsAdded { added, .. } = delta else {
        panic!("expected InstrumentStripsAdded");
    };
    assert_eq!(added.len(), 6);
}

#[test]
fn adding_all_channels_twice_adds_nothing_the_second_time() {
    // Pressing it again must not double the desk or reset the levels
    // someone has already set on the first set of strips.
    let (state, _, _) = ok(MixCommand::AddInstrument { name: None });
    let (once, _, _) = apply(
        &state,
        MixCommand::AddInstrumentStrips {
            id: InstrumentId(0),
        },
    )
    .unwrap();
    let (twice, _, _) = apply(
        &once,
        MixCommand::AddInstrumentStrips {
            id: InstrumentId(0),
        },
    )
    .unwrap();
    assert_eq!(once.strips.len(), twice.strips.len());
}

#[test]
fn an_unsplit_instrument_lands_on_the_desk_as_a_stereo_pair() {
    // The "only assign the stereo mix" case: two strips, L and R.
    let (state, _, _) = ok(MixCommand::AddInstrument {
        name: Some("Rhodes".into()),
    });
    let before = state.strips.len();
    let (next, _, _) = apply(
        &state,
        MixCommand::AddInstrumentStrips {
            id: InstrumentId(0),
        },
    )
    .unwrap();
    assert_eq!(next.strips.len(), before + 2);
    assert_eq!(next.strips[before].name, "Rhodes L");
    assert_eq!(next.strips[before + 1].name, "Rhodes R");
}

#[test]
fn narrowing_the_outputs_heals_strips_that_pointed_past_the_new_width() {
    // Going from six drum faders back to a stereo mix leaves channels
    // 2..5 with nothing behind them. Silently keeping those patches
    // would land them on the NEXT instrument's audio.
    let (mut state, _, _) = ok(MixCommand::AddInstrument { name: None });
    state.instruments[0].splits = gm_drum_splits();
    let (state, _, _) = apply(
        &state,
        MixCommand::AddInstrumentStrips {
            id: InstrumentId(0),
        },
    )
    .unwrap();
    let (narrowed, _, need) = apply(
        &state,
        MixCommand::SetInstrumentSplits {
            id: InstrumentId(0),
            splits: Vec::new(),
        },
    )
    .unwrap();
    assert_eq!(need, ReconcileNeed::Topology);
    let still_patched = narrowed
        .strips
        .iter()
        .filter(|s| {
            s.input.as_ref().and_then(InputAssign::instrument_id) == Some(InstrumentId(0))
        })
        .count();
    assert_eq!(still_patched, 2, "only L and R survive a stereo layout");
}

#[test]
fn a_split_with_no_key_ranges_is_refused() {
    let (state, _, _) = ok(MixCommand::AddInstrument { name: None });
    assert!(matches!(
        apply(
            &state,
            MixCommand::SetInstrumentSplits {
                id: InstrumentId(0),
                splits: vec![InstrumentSplit {
                    name: "Kick".into(),
                    ranges: Vec::new(),
                }],
            }
        ),
        Err(MixError::BadName(_))
    ));
}

#[test]
fn editing_an_instrument_that_is_not_there_is_an_unknown_target() {
    assert!(matches!(
        apply(
            &state(),
            MixCommand::RemoveInstrument {
                id: InstrumentId(9)
            }
        ),
        Err(MixError::UnknownTarget(_))
    ));
}

#[test]
fn clearing_a_jack_leaves_nothing_on_it() {
    let patch = out_patch(OutputSource::Master, 0, 1);
    let (state, ..) = apply(&state(), MixCommand::SetOutputPatch { patch }).unwrap();
    let (state, delta, need) =
        apply(&state, MixCommand::ClearOutputPatch { jack: jack(1) }).unwrap();
    assert!(state.output(&jack(1)).is_none());
    assert_eq!(delta, StateDelta::OutputUnpatched { jack: jack(1) });
    assert_eq!(need, ReconcileNeed::Topology);
}

#[test]
fn arming_all_arms_every_strip_and_leaves_the_master() {
    let (next, delta, need) = ok(MixCommand::SetRecordArmAll { armed: true });
    assert!(next.strips.iter().all(|strip| strip.record_arm));
    assert!(!next.master.record_arm);
    assert_eq!(delta, StateDelta::RecordArmAll { armed: true });
    assert_eq!(need, ReconcileNeed::ParamOnly);
}

#[test]
fn each_refusal_has_its_own_error() {
    let unknown = apply(
        &state(),
        MixCommand::SetGain { strip: StripId(5), gain_db: s(0.0) },
    );
    assert_eq!(unknown.unwrap_err(), MixError::UnknownTarget("strip#5".to_owned()));
    let range = apply(
        &state(),
        MixCommand::SetPan { strip: StripId(0), pan: s(1.5) },
    );
    assert!(matches!(range, Err(MixError::OutOfRange { field: "pan", .. })));
    let name = apply(
        &state(),
        MixCommand::Rename { target: FaderTarget::Strip { id: StripId(0) }, name: " ".into() },
    );
    assert!(matches!(name, Err(MixError::BadName(_))));
}

#[test]
fn the_id_of_a_removed_strip_is_not_handed_out_again() {
    let state = MixerState {
        strips: vec![
            StripState::new(StripId(0), "A".into()),
            StripState::new(StripId(1), "B".into()),
        ],
        ..MixerState::default()
    };
    let (next, _, _) = apply(&state, MixCommand::RemoveStrip { id: StripId(1) }).unwrap();
    assert_eq!(next.next_strip_id(), StripId(2));
    let (next, _, _) = apply(&next, MixCommand::RemoveStrip { id: StripId(0) }).unwrap();
    assert!(next.strips.is_empty());
    let (next, _, _) = apply(&next, MixCommand::AddStrip { name: None }).unwrap();
    assert_eq!(next.strips[0].id, StripId(2));
    assert_eq!(next.strips[0].name, "Ch 3");
}

#[test]
fn the_id_of_a_removed_instrument_is_not_handed_out_again() {
    let state = MixerState::default();
    let (next, _, _) = apply(&state, MixCommand::AddInstrument { name: None }).unwrap();
    let id = next.instruments[0].id;
    let (next, _, _) = apply(&next, MixCommand::RemoveInstrument { id }).unwrap();
    let (next, _, _) = apply(&next, MixCommand::AddInstrument { name: None }).unwrap();
    assert_eq!(next.instruments[0].id, InstrumentId(id.0 + 1));
}
