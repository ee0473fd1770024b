//! The reducer: the only way the console document changes.

use vstd::prelude::*;
use vstd::string::StringExecFns;

use crate::console::bus::BusKind;
use crate::console::bus::BusState;
use crate::console::change::bad_range;
use crate::console::change::bus_added;
use crate::console::change::bus_removed;
use crate::console::change::change;
use crate::console::change::channel_patch;
use crate::console::change::channel_strip;
use crate::console::change::chosen_name;
use crate::console::change::dests;
use crate::console::change::desk_numbers_fit;
use crate::console::change::desk_with;
use crate::console::change::eq_band_set;
use crate::console::change::eq_enabled_set;
use crate::console::change::fader_set;
use crate::console::change::fed_by;
use crate::console::change::fed_jacks;
use crate::console::change::feeds_fx;
use crate::console::change::first_split_fault;
use crate::console::change::fx_fault;
use crate::console::change::fx_params_set;
use crate::console::change::fx_return_set;
use crate::console::change::gain_set;
use crate::console::change::input_set;
use crate::console::change::instrument_added;
use crate::console::change::instrument_removed;
use crate::console::change::instrument_strips_added;
use crate::console::change::jack_label;
use crate::console::change::mute_set;
use crate::console::change::need;
use crate::console::change::numbers_fit;
use crate::console::change::on_the_desk;
use crate::console::change::other_bus;
use crate::console::change::other_dest;
use crate::console::change::other_instrument;
use crate::console::change::other_jack;
use crate::console::change::other_source;
use crate::console::change::other_strip;
use crate::console::change::output_cleared;
use crate::console::change::output_patched;
use crate::console::change::output_tap_set;
use crate::console::change::pan_set;
use crate::console::change::performance_set;
use crate::console::change::pfl_set;
use crate::console::change::plays;
use crate::console::change::ranged;
use crate::console::change::record_arm_all_set;
use crate::console::change::record_arm_set;
use crate::console::change::renamed;
use crate::console::change::route_set;
use crate::console::change::send_set;
use crate::console::change::source_label;
use crate::console::change::split_fault;
use crate::console::change::splits_set;
use crate::console::change::strip_added;
use crate::console::change::strip_removed;
use crate::console::change::tape_name;
use crate::console::change::voice_set;
use crate::console::change::with_bus;
use crate::console::change::with_fx;
use crate::console::change::with_instrument;
use crate::console::change::with_send;
use crate::console::change::with_strip;
use crate::console::change::within_width;
use crate::console::change::without_bus;
use crate::console::change::without_instrument;
use crate::console::change::Change;
use crate::console::change::DELAY_MAX_MS;
use crate::console::change::FEEDBACK_MAX;
use crate::console::change::FX_ONE;
use crate::console::change::FX_ZERO;
use crate::console::change::PAN_LEFT;
use crate::console::change::PAN_RIGHT;
use crate::console::command::ErrorView;
use crate::console::command::FaderTarget;
use crate::console::command::MixCommand;
use crate::console::command::MixError;
use crate::console::command::ReconcileNeed;
use crate::console::command::StateDelta;
use crate::console::command::MAX_INSTRUMENTS;
use crate::console::command::MAX_NAME_LEN;
use crate::console::command::MAX_POLYPHONY;
use crate::console::command::MAX_STRIPS;
use crate::console::command::MIN_POLYPHONY;
use crate::console::db::FADER_MAX_DB;
use crate::console::db::FADER_MIN_DB;
use crate::console::db::GAIN_MAX_DB;
use crate::console::db::GAIN_MIN_DB;
use crate::console::eq::EqBand;
use crate::console::eq::EqBandKind;
use crate::console::eq::EQ_FREQ_MAX_HZ;
use crate::console::eq::EQ_FREQ_MIN_HZ;
use crate::console::eq::EQ_GAIN_CUT_DB;
use crate::console::eq::EQ_GAIN_RANGE_DB;
use crate::console::eq::EQ_Q_MAX;
use crate::console::eq::EQ_Q_MIN;
use crate::console::fx::FxParams;
use crate::console::fx::FxState;
use crate::console::id::BusId;
use crate::console::id::FxId;
use crate::console::id::InstrumentId;
use crate::console::id::StripId;
use crate::console::instrument::InstrumentSplit;
use crate::console::instrument::InstrumentState;
use crate::console::mix::find_bus;
use crate::console::mix::find_fx;
use crate::console::mix::find_instrument;
use crate::console::mix::find_output;
use crate::console::mix::find_strip;
use crate::console::mix::raise;
use crate::console::mix::MixerState;
use crate::console::mix::MixerView;
use crate::console::output::OutputJack;
use crate::console::output::OutputPatch;
use crate::console::output::OutputSource;
use crate::console::output::PatchView;
use crate::console::output::MAX_OUTPUT_PATCHES;
use crate::console::strip::copy_input;
use crate::console::strip::input_of;
use crate::console::strip::InputAssign;
use crate::console::strip::RouteTarget;
use crate::console::strip::SendState;
use crate::console::strip::SendTap;
use crate::console::strip::StripState;
use crate::console::strip::StripView;
use crate::seqs::lemma_absent;
use crate::seqs::lemma_filter_none;
use crate::seqs::lemma_filter_step;
use crate::seqs::lemma_first;
use crate::seqs::views;
use crate::single::Single;
use crate::text::numbered;
use crate::text::push_numeral;
use crate::text::text_of;
use crate::text::texts_of;
use crate::text::trim;
use crate::text::trimmed;

verus! {

/// What an attempt came to, in the model.
pub open spec fn outcome(result: Result<StateDelta, MixError>, next: MixerView) -> Change {
    match result {
        Ok(delta) => Ok((next, delta@)),
        Err(e) => Err(e@),
    }
}

/// The value, if it lies within its range.
fn check_range(field: &'static str, value: Single, min: u32, max: u32) -> (checked: Result<
    Single,
    MixError,
>)
    ensures
        match checked {
            Ok(v) => ranged(field@, value, min, max) == Ok::<Single, ErrorView>(v),
            Err(e) => ranged(field@, value, min, max) == Err::<Single, ErrorView>(e@),
        },
{
    if (Single { bits: min }).le(value) && value.le(Single { bits: max }) {
        Ok(value)
    } else {
        Err(MixError::OutOfRange { field, value })
    }
}

/// The name, trimmed, if it fits on the tape.
fn check_name(name: &str) -> (checked: Result<String, MixError>)
    ensures
        match checked {
            Ok(n) => tape_name(name@) == Ok::<Seq<char>, ErrorView>(n@),
            Err(e) => tape_name(name@) == Err::<Seq<char>, ErrorView>(e@),
        },
{
    let kept: &str = trim(name);
    if kept.is_empty() {
        Err(MixError::BadName("must not be empty"))
    } else if kept.as_bytes().len() > MAX_NAME_LEN {
        Err(MixError::BadName("too long for the tape"))
    } else {
        Ok(kept.to_owned())
    }
}

/// The given name checked, or the default.
fn choose_name(name: Option<String>, default: String) -> (chosen: Result<String, MixError>)
    ensures
        match chosen {
            Ok(n) => chosen_name(text_of(name), default@) == Ok::<Seq<char>, ErrorView>(n@),
            Err(e) => chosen_name(text_of(name), default@) == Err::<Seq<char>, ErrorView>(e@),
        },
{
    match name {
        Some(given) => check_name(given.as_str()),
        None => Ok(default),
    }
}

fn unknown_strip_error(id: StripId) -> (e: MixError)
    ensures
        e@ == ErrorView::UnknownTarget(id.label()),
{
    MixError::UnknownTarget(id.to_string())
}

fn unknown_bus_error(id: BusId) -> (e: MixError)
    ensures
        e@ == ErrorView::UnknownTarget(id.label()),
{
    MixError::UnknownTarget(id.to_string())
}

fn unknown_fx_error(id: FxId) -> (e: MixError)
    ensures
        e@ == ErrorView::UnknownTarget(id.label()),
{
    MixError::UnknownTarget(id.to_string())
}

fn unknown_instrument_error(id: InstrumentId) -> (e: MixError)
    ensures
        e@ == ErrorView::UnknownTarget(id.label()),
{
    MixError::UnknownTarget(id.to_string())
}

fn set_fader(next: &mut MixerState, target: FaderTarget, level_db: Single) -> (result: Result<
    StateDelta,
    MixError,
>)
    ensures
        outcome(result, final(next)@) == fader_set(old(next)@, target, level_db),
{
    let level_db: Single = match check_range("level_db", level_db, FADER_MIN_DB, FADER_MAX_DB) {
        Ok(v) => v,
        Err(e) => return Err(e),
    };
    match target {
        FaderTarget::Strip { id } => match find_strip(&next.strips, id) {
            Some(i) => {
                next.strips[i].fader_db = level_db;
                proof {
                    let strip = StripView { fader_db: level_db, ..old(next)@.strips[i as int] };
                    assert(next@ =~= with_strip(old(next)@, i as int, strip));
                }
            },
            None => return Err(unknown_strip_error(id)),
        },
        FaderTarget::Bus { id } => match find_bus(&next.buses, id) {
            Some(i) => {
                next.buses[i].fader_db = level_db;
                assert(next@ =~= with_bus(old(next)@, i as int, next@.buses[i as int]));
            },
            None => return Err(unknown_bus_error(id)),
        },
        FaderTarget::Master => {
            next.master.fader_db = level_db;
        },
    }
    Ok(StateDelta::Fader { target, level_db })
}

fn set_gain(next: &mut MixerState, strip: StripId, gain_db: Single) -> (result: Result<
    StateDelta,
    MixError,
>)
    ensures
        outcome(result, final(next)@) == gain_set(old(next)@, strip, gain_db),
{
    let gain_db: Single = match check_range("gain_db", gain_db, GAIN_MIN_DB, GAIN_MAX_DB) {
        Ok(v) => v,
        Err(e) => return Err(e),
    };
    match find_strip(&next.strips, strip) {
        Some(i) => {
            next.strips[i].gain_db = gain_db;
            assert(next@ =~= with_strip(old(next)@, i as int, next@.strips[i as int]));
            Ok(StateDelta::Gain { strip, gain_db })
        },
        None => Err(unknown_strip_error(strip)),
    }
}

fn set_eq_band(
    next: &mut MixerState,
    strip: StripId,
    band: EqBandKind,
    freq_hz: Single,
    gain_db: Single,
    q: Single,
) -> (result: Result<StateDelta, MixError>)
    ensures
        outcome(result, final(next)@) == eq_band_set(old(next)@, strip, band, freq_hz, gain_db, q),
{
    let freq_hz: Single = match check_range("freq_hz", freq_hz, EQ_FREQ_MIN_HZ, EQ_FREQ_MAX_HZ) {
        Ok(v) => v,
        Err(e) => return Err(e),
    };
    let gain_db: Single = match check_range("gain_db", gain_db, EQ_GAIN_CUT_DB, EQ_GAIN_RANGE_DB) {
        Ok(v) => v,
        Err(e) => return Err(e),
    };
    let q: Single = match check_range("q", q, EQ_Q_MIN, EQ_Q_MAX) {
        Ok(v) => v,
        Err(e) => return Err(e),
    };
    match find_strip(&next.strips, strip) {
        Some(i) => {
            let mut eq = next.strips[i].eq;
            match band {
                EqBandKind::LowShelf => {
                    eq.low = EqBand { kind: eq.low.kind, freq_hz, gain_db, q };
                },
                EqBandKind::Peak => {
                    eq.mid = EqBand { kind: eq.mid.kind, freq_hz, gain_db, q };
                },
                EqBandKind::HighShelf => {
                    eq.high = EqBand { kind: eq.high.kind, freq_hz, gain_db, q };
                },
            }
            next.strips[i].eq = eq;
            assert(next@ =~= with_strip(old(next)@, i as int, next@.strips[i as int]));
            Ok(StateDelta::EqBand { strip, band, freq_hz, gain_db, q })
        },
        None => Err(unknown_strip_error(strip)),
    }
}

fn set_eq_enabled(next: &mut MixerState, strip: StripId, enabled: bool) -> (result: Result<
    StateDelta,
    MixError,
>)
    ensures
        outcome(result, final(next)@) == eq_enabled_set(old(next)@, strip, enabled),
{
    match find_strip(&next.strips, strip) {
        Some(i) => {
            next.strips[i].eq.enabled = enabled;
            assert(next@ =~= with_strip(old(next)@, i as int, next@.strips[i as int]));
            Ok(StateDelta::EqEnabled { strip, enabled })
        },
        None => Err(unknown_strip_error(strip)),
    }
}

fn set_pan(next: &mut MixerState, strip: StripId, pan: Single) -> (result: Result<
    StateDelta,
    MixError,
>)
    ensures
        outcome(result, final(next)@) == pan_set(old(next)@, strip, pan),
{
    let pan: Single = match check_range("pan", pan, PAN_LEFT, PAN_RIGHT) {
        Ok(v) => v,
        Err(e) => return Err(e),
    };
    match find_strip(&next.strips, strip) {
        Some(i) => {
            next.strips[i].pan = pan;
            assert(next@ =~= with_strip(old(next)@, i as int, next@.strips[i as int]));
            Ok(StateDelta::Pan { strip, pan })
        },
        None => Err(unknown_strip_error(strip)),
    }
}

fn set_mute(next: &mut MixerState, target: FaderTarget, mute: bool) -> (result: Result<
    StateDelta,
    MixError,
>)
    ensures
        outcome(result, final(next)@) == mute_set(old(next)@, target, mute),
{
    match target {
        FaderTarget::Strip { id } => match find_strip(&next.strips, id) {
            Some(i) => {
                next.strips[i].mute = mute;
                assert(next@ =~= with_strip(old(next)@, i as int, next@.strips[i as int]));
            },
            None => return Err(unknown_strip_error(id)),
        },
        FaderTarget::Bus { id } => match find_bus(&next.buses, id) {
            Some(i) => {
                next.buses[i].mute = mute;
                assert(next@ =~= with_bus(old(next)@, i as int, next@.buses[i as int]));
            },
            None => return Err(unknown_bus_error(id)),
        },
        FaderTarget::Master => return Err(MixError::Unsupported("master has no mute")),
    }
    Ok(StateDelta::Mute { target, mute })
}

fn set_pfl(next: &mut MixerState, target: FaderTarget, on: bool) -> (result: Result<
    StateDelta,
    MixError,
>)
    ensures
        outcome(result, final(next)@) == pfl_set(old(next)@, target, on),
{
    match target {
        FaderTarget::Strip { id } => match find_strip(&next.strips, id) {
            Some(i) => {
                next.strips[i].pfl = on;
                assert(next@ =~= with_strip(old(next)@, i as int, next@.strips[i as int]));
            },
            None => return Err(unknown_strip_error(id)),
        },
        FaderTarget::Bus { id } => match find_bus(&next.buses, id) {
            Some(i) => {
                next.buses[i].pfl = on;
                assert(next@ =~= with_bus(old(next)@, i as int, next@.buses[i as int]));
            },
            None => return Err(unknown_bus_error(id)),
        },
        FaderTarget::Master => return Err(MixError::Unsupported("master has no PFL")),
    }
    Ok(StateDelta::Pfl { target, on })
}

fn set_input(next: &mut MixerState, strip: StripId, input: Option<InputAssign>) -> (result: Result<
    StateDelta,
    MixError,
>)
    ensures
        outcome(result, final(next)@) == input_set(old(next)@, strip, input_of(input)),
{
    match find_strip(&next.strips, strip) {
        Some(i) => {
            next.strips[i].input = copy_input(&input);
            assert(next@ =~= with_strip(old(next)@, i as int, next@.strips[i as int]));
            Ok(StateDelta::Input { strip, input })
        },
        None => Err(unknown_strip_error(strip)),
    }
}

fn rename(next: &mut MixerState, target: FaderTarget, name: &str) -> (result: Result<
    StateDelta,
    MixError,
>)
    ensures
        outcome(result, final(next)@) == renamed(old(next)@, target, name@),
{
    let name: String = match check_name(name) {
        Ok(v) => v,
        Err(e) => return Err(e),
    };
    match target {
        FaderTarget::Strip { id } => match find_strip(&next.strips, id) {
            Some(i) => {
                next.strips[i].name = name.clone();
                assert(next@ =~= with_strip(old(next)@, i as int, next@.strips[i as int]));
            },
            None => return Err(unknown_strip_error(id)),
        },
        FaderTarget::Bus { id } => match find_bus(&next.buses, id) {
            Some(i) => {
                next.buses[i].name = name.clone();
                assert(next@ =~= with_bus(old(next)@, i as int, next@.buses[i as int]));
            },
            None => return Err(unknown_bus_error(id)),
        },
        FaderTarget::Master => return Err(MixError::Unsupported("master has no tape")),
    }
    Ok(StateDelta::Renamed { target, name })
}

fn add_strip(next: &mut MixerState, name: Option<String>) -> (result: Result<StateDelta, MixError>)
    requires
        numbers_fit(old(next)@, MixCommand::AddStrip { name }),
    ensures
        outcome(result, final(next)@) == strip_added(old(next)@, text_of(name)),
{
    if next.strips.len() >= MAX_STRIPS {
        return Err(MixError::Unsupported("the console is full"));
    }
    let id: StripId = next.next_strip_id();
    let name: String = match name {
        Some(given) => match check_name(given.as_str()) {
            Ok(v) => v,
            Err(e) => return Err(e),
        },
        None => numbered("Ch ", id.0 as u64 + 1),
    };
    let strip: StripState = StripState::new(id, name);
    next.strips.push(strip.clone());
    assert(next@ =~= (MixerView { strips: old(next)@.strips.push(strip@), ..old(next)@ }));
    Ok(StateDelta::StripAdded { strip })
}

/// The strips without those of that id.
fn strips_without(strips: &Vec<StripState>, id: StripId) -> (kept: Vec<StripState>)
    ensures
        views(kept@) == views(strips@).filter(other_strip(id)),
{
    let ghost all = views(strips@);
    let mut kept: Vec<StripState> = Vec::new();
    let mut i: usize = 0;
    proof {
        lemma_filter_none(all, other_strip(id));
        assert(views(kept@) =~= Seq::empty());
    }
    while i < strips.len()
        invariant
            all == views(strips@),
            i <= strips.len(),
            views(kept@) == all.take(i as int).filter(other_strip(id)),
        decreases strips.len() - i,
    {
        proof {
            lemma_filter_step(all, other_strip(id), i as int);
        }
        let ghost before = kept@;
        if strips[i].id != id {
            kept.push(strips[i].clone());
            assert(views(kept@) =~= views(before).push(all[i as int]));
        }
        i = i + 1;
    }
    assert(all.take(i as int) =~= all);
    kept
}

/// The buses without those of that id.
fn buses_without(buses: &Vec<BusState>, id: BusId) -> (kept: Vec<BusState>)
    ensures
        views(kept@) == views(buses@).filter(other_bus(id)),
{
    let ghost all = views(buses@);
    let mut kept: Vec<BusState> = Vec::new();
    let mut i: usize = 0;
    proof {
        lemma_filter_none(all, other_bus(id));
        assert(views(kept@) =~= Seq::empty());
    }
    while i < buses.len()
        invariant
            all == views(buses@),
            i <= buses.len(),
            views(kept@) == all.take(i as int).filter(other_bus(id)),
        decreases buses.len() - i,
    {
        proof {
            lemma_filter_step(all, other_bus(id), i as int);
        }
        let ghost before = kept@;
        if buses[i].id != id {
            kept.push(buses[i].clone());
            assert(views(kept@) =~= views(before).push(all[i as int]));
        }
        i = i + 1;
    }
    assert(all.take(i as int) =~= all);
    kept
}

/// The instruments without those of that id.
fn instruments_without(instruments: &Vec<InstrumentState>, id: InstrumentId) -> (kept: Vec<
    InstrumentState,
>)
    ensures
        views(kept@) == views(instruments@).filter(other_instrument(id)),
{
    let ghost all = views(instruments@);
    let mut kept: Vec<InstrumentState> = Vec::new();
    let mut i: usize = 0;
    proof {
        lemma_filter_none(all, other_instrument(id));
        assert(views(kept@) =~= Seq::empty());
    }
    while i < instruments.len()
        invariant
            all == views(instruments@),
            i <= instruments.len(),
            views(kept@) == all.take(i as int).filter(other_instrument(id)),
        decreases instruments.len() - i,
    {
        proof {
            lemma_filter_step(all, other_instrument(id), i as int);
        }
        let ghost before = kept@;
        if instruments[i].id != id {
            kept.push(instruments[i].clone());
            assert(views(kept@) =~= views(before).push(all[i as int]));
        }
        i = i + 1;
    }
    assert(all.take(i as int) =~= all);
    kept
}

/// The sends without those toward that bus.
fn sends_without(sends: &Vec<SendState>, id: BusId) -> (kept: Vec<SendState>)
    ensures
        kept@ == sends@.filter(other_dest(id)),
{
    let mut kept: Vec<SendState> = Vec::new();
    let mut i: usize = 0;
    proof {
        lemma_filter_none(sends@, other_dest(id));
    }
    while i < sends.len()
        invariant
            i <= sends.len(),
            kept@ == sends@.take(i as int).filter(other_dest(id)),
        decreases sends.len() - i,
    {
        proof {
            lemma_filter_step(sends@, other_dest(id), i as int);
        }
        if sends[i].dest != id {
            kept.push(sends[i]);
        }
        i = i + 1;
    }
    assert(sends@.take(i as int) =~= sends@);
    kept
}

/// Drops every patch that a source feeds; the jacks that went quiet come back.
fn unpatch_source(outputs: &mut Vec<OutputPatch>, source: OutputSource) -> (gone: Vec<OutputJack>)
    ensures
        views(final(outputs)@) == views(old(outputs)@).filter(other_source(source)),
        views(gone@) == fed_jacks(views(old(outputs)@), source),
{
    let ghost all = views(outputs@);
    let ghost jack_of = |patch: PatchView| patch.jack_of();
    let mut kept: Vec<OutputPatch> = Vec::new();
    let mut gone: Vec<OutputJack> = Vec::new();
    let mut i: usize = 0;
    proof {
        lemma_filter_none(all, other_source(source));
        lemma_filter_none(all, fed_by(source));
        assert(views(kept@) =~= Seq::empty());
        assert(views(gone@) =~= all.take(0).filter(fed_by(source)).map_values(jack_of));
    }
    while i < outputs.len()
        invariant
            all == views(outputs@),
            *outputs == *old(outputs),
            i <= outputs.len(),
            views(kept@) == all.take(i as int).filter(other_source(source)),
            views(gone@) == all.take(i as int).filter(fed_by(source)).map_values(jack_of),
            jack_of == (|patch: PatchView| patch.jack_of()),
        decreases outputs.len() - i,
    {
        proof {
            lemma_filter_step(all, other_source(source), i as int);
            lemma_filter_step(all, fed_by(source), i as int);
        }
        let ghost before = kept@;
        let ghost quiet = gone@;
        if outputs[i].source == source {
            gone.push(outputs[i].jack());
            proof {
                assert(views(gone@) =~= views(quiet).push(all[i as int].jack_of()));
                assert(views(gone@) =~= all.take(i + 1).filter(fed_by(source)).map_values(jack_of));
            }
        } else {
            kept.push(outputs[i].clone());
            assert(views(kept@) =~= views(before).push(all[i as int]));
        }
        i = i + 1;
    }
    assert(all.take(i as int) =~= all);
    *outputs = kept;
    gone
}

fn remove_strip(next: &mut MixerState, id: StripId) -> (result: Result<StateDelta, MixError>)
    ensures
        outcome(result, final(next)@) == strip_removed(old(next)@, id),
{
    match find_strip(&next.strips, id) {
        Some(_) => {
            next.strips = strips_without(&next.strips, id);
            next.strip_mark = raise(next.strip_mark, id.0);
            let unpatched_outputs: Vec<OutputJack> = unpatch_source(
                &mut next.outputs,
                OutputSource::Strip { id },
            );
            Ok(StateDelta::StripRemoved { id, unpatched_outputs })
        },
        None => Err(unknown_strip_error(id)),
    }
}

fn set_send(
    next: &mut MixerState,
    strip: StripId,
    dest: BusId,
    level_db: Single,
    tap: SendTap,
) -> (result: Result<StateDelta, MixError>)
    ensures
        outcome(result, final(next)@) == send_set(old(next)@, strip, dest, level_db, tap),
{
    let level_db: Single = match check_range("level_db", level_db, FADER_MIN_DB, FADER_MAX_DB) {
        Ok(v) => v,
        Err(e) => return Err(e),
    };
    match find_bus(&next.buses, dest) {
        Some(b) => {
            if next.buses[b].kind != BusKind::Aux {
                return Err(MixError::Unsupported("sends target aux buses only"));
            }
        },
        None => return Err(unknown_bus_error(dest)),
    }
    match find_strip(&next.strips, strip) {
        Some(i) => {
            let send = SendState { dest, level_db, tap };
            let mut sends: Vec<SendState> = next.strips[i].sends.clone();
            assert(sends@ =~= next.strips@[i as int].sends@);
            upsert_send(&mut sends, send);
            next.strips[i].sends = sends;
            assert(next@ =~= with_strip(old(next)@, i as int, next@.strips[i as int]));
            Ok(StateDelta::Send { strip, dest, level_db, tap })
        },
        None => Err(unknown_strip_error(strip)),
    }
}

/// Replaces the send toward the same bus, or adds one.
fn upsert_send(sends: &mut Vec<SendState>, send: SendState)
    ensures
        final(sends)@ == with_send(old(sends)@, send),
{
    let ghost toward = dests(sends@);
    let mut i: usize = 0;
    while i < sends.len()
        invariant
            *sends == *old(sends),
            toward == dests(sends@),
            i <= sends.len(),
            forall|j: int| 0 <= j < i ==> toward[j] != send.dest,
        decreases sends.len() - i,
    {
        if sends[i].dest == send.dest {
            proof {
                lemma_first(toward, send.dest, i as int);
            }
            sends[i] = send;
            return ;
        }
        i = i + 1;
    }
    proof {
        lemma_absent(toward, send.dest);
    }
    sends.push(send);
}

fn set_route(next: &mut MixerState, strip: StripId, to: RouteTarget) -> (result: Result<
    StateDelta,
    MixError,
>)
    ensures
        outcome(result, final(next)@) == route_set(old(next)@, strip, to),
{
    match to {
        RouteTarget::Master => {},
        RouteTarget::Bus { id } => match find_bus(&next.buses, id) {
            Some(b) => {
                if next.buses[b].kind != BusKind::Group {
                    return Err(MixError::Unsupported("strips route to master or groups"));
                }
            },
            None => return Err(unknown_bus_error(id)),
        },
    }
    match find_strip(&next.strips, strip) {
        Some(i) => {
            next.strips[i].route_to = to;
            assert(next@ =~= with_strip(old(next)@, i as int, next@.strips[i as int]));
            Ok(StateDelta::Route { strip, to })
        },
        None => Err(unknown_strip_error(strip)),
    }
}

/// Whether every knob is within its range.
fn check_fx_params(params: &FxParams) -> (checked: Result<(), MixError>)
    ensures
        match checked {
            Ok(_) => fx_fault(*params) is None,
            Err(e) => fx_fault(*params) == Some(e@),
        },
{
    match *params {
        FxParams::Reverb { room_size, damping } => {
            match check_range("room_size", room_size, FX_ZERO, FX_ONE) {
                Ok(_) => {},
                Err(e) => return Err(e),
            }
            match check_range("damping", damping, FX_ZERO, FX_ONE) {
                Ok(_) => {},
                Err(e) => return Err(e),
            }
        },
        FxParams::Delay { time_ms, feedback } => {
            match check_range("time_ms", time_ms, FX_ONE, DELAY_MAX_MS) {
                Ok(_) => {},
                Err(e) => return Err(e),
            }
            match check_range("feedback", feedback, FX_ZERO, FEEDBACK_MAX) {
                Ok(_) => {},
                Err(e) => return Err(e),
            }
        },
    }
    Ok(())
}

/// Whether two sets of knobs belong to the same kind of effect.
fn same_fx_kind(a: &FxParams, b: &FxParams) -> (same: bool)
    ensures
        same == ((*a is Reverb) == (*b is Reverb)),
{
    match (a, b) {
        (FxParams::Reverb { .. }, FxParams::Reverb { .. }) => true,
        (FxParams::Delay { .. }, FxParams::Delay { .. }) => true,
        _ => false,
    }
}

fn set_fx_params(next: &mut MixerState, fx: FxId, params: FxParams) -> (result: Result<
    StateDelta,
    MixError,
>)
    ensures
        outcome(result, final(next)@) == fx_params_set(old(next)@, fx, params),
{
    match check_fx_params(&params) {
        Ok(_) => {},
        Err(e) => return Err(e),
    }
    match find_fx(&next.fx, fx) {
        Some(i) => {
            if !same_fx_kind(&next.fx[i].params, &params) {
                return Err(MixError::Unsupported("an FX unit cannot change kind"));
            }
            next.fx[i].params = params;
            assert(next@ =~= with_fx(old(next)@, i as int, next@.fx[i as int]));
            Ok(StateDelta::FxParams { fx, params })
        },
        None => Err(unknown_fx_error(fx)),
    }
}

fn set_fx_return(next: &mut MixerState, fx: FxId, level_db: Single) -> (result: Result<
    StateDelta,
    MixError,
>)
    ensures
        outcome(result, final(next)@) == fx_return_set(old(next)@, fx, level_db),
{
    let level_db: Single = match check_range("level_db", level_db, FADER_MIN_DB, FADER_MAX_DB) {
        Ok(v) => v,
        Err(e) => return Err(e),
    };
    match find_fx(&next.fx, fx) {
        Some(i) => {
            next.fx[i].return_level_db = level_db;
            assert(next@ =~= with_fx(old(next)@, i as int, next@.fx[i as int]));
            Ok(StateDelta::FxReturn { fx, level_db })
        },
        None => Err(unknown_fx_error(fx)),
    }
}

fn add_bus(next: &mut MixerState, kind: BusKind, name: Option<String>) -> (result: Result<
    StateDelta,
    MixError,
>)
    requires
        numbers_fit(old(next)@, MixCommand::AddBus { kind, name }),
    ensures
        outcome(result, final(next)@) == bus_added(old(next)@, kind, text_of(name)),
{
    let id: BusId = next.next_bus_id();
    let prefix: &str = match kind {
        BusKind::Group => "Group ",
        BusKind::Aux => "Aux ",
    };
    let name: String = match name {
        Some(given) => match check_name(given.as_str()) {
            Ok(v) => v,
            Err(e) => return Err(e),
        },
        None => numbered(prefix, id.0 as u64 + 1),
    };
    let bus: BusState = BusState::new(id, kind, name);
    next.buses.push(bus.clone());
    assert(next@ =~= (MixerView { buses: old(next)@.buses.push(bus@), ..old(next)@ }));
    Ok(StateDelta::BusAdded { bus })
}

/// Whether an effects unit takes its input from that bus.
fn any_fx_fed_by(fx: &Vec<FxState>, id: BusId) -> (fed: bool)
    ensures
        fed == feeds_fx(views(fx@), id),
{
    let ghost all = views(fx@);
    let mut i: usize = 0;
    while i < fx.len()
        invariant
            all == views(fx@),
            i <= fx.len(),
            forall|j: int| 0 <= j < i ==> (#[trigger] all[j]).input != id,
        decreases fx.len() - i,
    {
        if fx[i].input == id {
            assert(all[i as int].input == id);
            return true;
        }
        i = i + 1;
    }
    false
}

/// Heals every strip after a bus is gone.
fn forget_bus(strips: &mut Vec<StripState>, id: BusId)
    ensures
        views(final(strips)@) == Seq::new(
            old(strips)@.len(),
            |i: int| without_bus(old(strips)@[i]@, id),
        ),
{
    let mut i: usize = 0;
    while i < strips.len()
        invariant
            strips@.len() == old(strips)@.len(),
            i <= strips.len(),
            forall|j: int|
                0 <= j < i ==> (#[trigger] strips@[j])@ == without_bus(old(strips)@[j]@, id),
            forall|j: int| i <= j < strips@.len() ==> strips@[j] == old(strips)@[j],
        decreases strips.len() - i,
    {
        let gone = RouteTarget::Bus { id };
        if strips[i].route_to == gone {
            strips[i].route_to = RouteTarget::Master;
        }
        let kept: Vec<SendState> = sends_without(&strips[i].sends, id);
        strips[i].sends = kept;
        i = i + 1;
    }
    assert(views(strips@) =~= Seq::new(
        old(strips)@.len(),
        |i: int| without_bus(old(strips)@[i]@, id),
    ));
}

fn remove_bus(next: &mut MixerState, id: BusId) -> (result: Result<StateDelta, MixError>)
    ensures
        outcome(result, final(next)@) == bus_removed(old(next)@, id),
{
    if any_fx_fed_by(&next.fx, id) {
        return Err(MixError::Unsupported("bus feeds an FX unit"));
    }
    match find_bus(&next.buses, id) {
        Some(_) => {
            next.buses = buses_without(&next.buses, id);
            forget_bus(&mut next.strips, id);
            let unpatched_outputs: Vec<OutputJack> = unpatch_source(
                &mut next.outputs,
                OutputSource::Bus { id },
            );
            proof {
                let s = old(next)@;
                assert(next@.strips =~= Seq::new(
                    s.strips.len(),
                    |i: int| without_bus(s.strips[i], id),
                ));
            }
            Ok(StateDelta::BusRemoved { id, unpatched_outputs })
        },
        None => Err(unknown_bus_error(id)),
    }
}

fn set_record_arm(next: &mut MixerState, target: FaderTarget, armed: bool) -> (result: Result<
    StateDelta,
    MixError,
>)
    ensures
        outcome(result, final(next)@) == record_arm_set(old(next)@, target, armed),
{
    match target {
        FaderTarget::Strip { id } => match find_strip(&next.strips, id) {
            Some(i) => {
                next.strips[i].record_arm = armed;
                assert(next@ =~= with_strip(old(next)@, i as int, next@.strips[i as int]));
            },
            None => return Err(unknown_strip_error(id)),
        },
        FaderTarget::Master => {
            next.master.record_arm = armed;
        },
        FaderTarget::Bus { .. } => return Err(
            MixError::Unsupported("buses are not recorded in v1"),
        ),
    }
    Ok(StateDelta::RecordArm { target, armed })
}

fn set_record_arm_all(next: &mut MixerState, armed: bool) -> (result: Result<StateDelta, MixError>)
    ensures
        outcome(result, final(next)@) == record_arm_all_set(old(next)@, armed),
{
    let ghost s = next@;
    let mut i: usize = 0;
    while i < next.strips.len()
        invariant
            s == old(next)@,
            next@.strips.len() == s.strips.len(),
            next@.buses == s.buses,
            next@.fx == s.fx,
            next@.instruments == s.instruments,
            next@.outputs == s.outputs,
            next@.master == s.master,
            next@.strip_mark == s.strip_mark,
            next@.instrument_mark == s.instrument_mark,
            i <= next.strips.len(),
            forall|j: int|
                0 <= j < i ==> (#[trigger] next@.strips[j]) == (StripView {
                    record_arm: armed,
                    ..s.strips[j]
                }),
            forall|j: int| i <= j < s.strips.len() ==> (#[trigger] next@.strips[j]) == s.strips[j],
        decreases next.strips.len() - i,
    {
        let ghost before = next@;
        next.strips[i].record_arm = armed;
        assert(before.strips[i as int] == s.strips[i as int]);
        assert(next@.strips =~= before.strips.update(i as int, next@.strips[i as int]));
        i = i + 1;
    }
    proof {
        assert(next@.strips =~= Seq::new(
            s.strips.len(),
            |i: int| StripView { record_arm: armed, ..s.strips[i] },
        ));
    }
    Ok(StateDelta::RecordArmAll { armed })
}

fn add_instrument(next: &mut MixerState, name: Option<String>) -> (result: Result<
    StateDelta,
    MixError,
>)
    requires
        numbers_fit(old(next)@, MixCommand::AddInstrument { name }),
    ensures
        outcome(result, final(next)@) == instrument_added(old(next)@, text_of(name)),
{
    if next.instruments.len() >= MAX_INSTRUMENTS {
        return Err(MixError::Unsupported("the instrument rack is full"));
    }
    let id: InstrumentId = next.next_instrument_id();
    let default: String = numbered("Inst ", next.instruments.len() as u64 + 1);
    let name: String = match choose_name(name, default) {
        Ok(v) => v,
        Err(e) => return Err(e),
    };
    let instrument: InstrumentState = InstrumentState::new(id, name);
    next.instruments.push(instrument.clone());
    assert(next@ =~= (MixerView {
        instruments: old(next)@.instruments.push(instrument@),
        ..old(next)@
    }));
    Ok(StateDelta::InstrumentAdded { instrument })
}

/// Whether a strip is patched to that instrument.
fn plays_instrument(strip: &StripState, id: InstrumentId) -> (yes: bool)
    ensures
        yes == plays(id)(strip@),
{
    match &strip.input {
        Some(assign) => assign.instrument_id() == Some(id),
        None => false,
    }
}

/// Heals every strip after an instrument is gone; the strips that lost their
/// input come back.
fn forget_instrument(strips: &mut Vec<StripState>, id: InstrumentId) -> (unpatched: Vec<StripId>)
    ensures
        views(final(strips)@) == Seq::new(
            old(strips)@.len(),
            |i: int| without_instrument(old(strips)@[i]@, id),
        ),
        unpatched@ == views(old(strips)@).filter(plays(id)).map_values(
            |strip: StripView| strip.id,
        ),
{
    let ghost all = views(strips@);
    let ghost id_of = |strip: StripView| strip.id;
    let mut unpatched: Vec<StripId> = Vec::new();
    let mut i: usize = 0;
    proof {
        lemma_filter_none(all, plays(id));
        assert(unpatched@ =~= all.take(0).filter(plays(id)).map_values(id_of));
    }
    while i < strips.len()
        invariant
            all == views(old(strips)@),
            strips@.len() == all.len(),
            i <= strips.len(),
            id_of == (|strip: StripView| strip.id),
            unpatched@ == all.take(i as int).filter(plays(id)).map_values(id_of),
            forall|j: int|
                0 <= j < i ==> (#[trigger] strips@[j])@ == without_instrument(
                    old(strips)@[j]@,
                    id,
                ),
            forall|j: int| i <= j < strips@.len() ==> strips@[j] == old(strips)@[j],
        decreases strips.len() - i,
    {
        proof {
            lemma_filter_step(all, plays(id), i as int);
        }
        let ghost before = unpatched@;
        if plays_instrument(&strips[i], id) {
            strips[i].input = None;
            unpatched.push(strips[i].id);
            proof {
                assert(unpatched@ =~= all.take(i + 1).filter(plays(id)).map_values(id_of));
            }
        }
        i = i + 1;
    }
    proof {
        assert(all.take(i as int) =~= all);
        assert(views(strips@) =~= Seq::new(
            old(strips)@.len(),
            |i: int| without_instrument(old(strips)@[i]@, id),
        ));
    }
    unpatched
}

fn remove_instrument(next: &mut MixerState, id: InstrumentId) -> (result: Result<
    StateDelta,
    MixError,
>)
    ensures
        outcome(result, final(next)@) == instrument_removed(old(next)@, id),
{
    match find_instrument(&next.instruments, id) {
        Some(_) => {
            next.instruments = instruments_without(&next.instruments, id);
            next.instrument_mark = raise(next.instrument_mark, id.0);
            let unpatched: Vec<StripId> = forget_instrument(&mut next.strips, id);
            proof {
                let s = old(next)@;
                assert(next@.strips =~= Seq::new(
                    s.strips.len(),
                    |i: int| without_instrument(s.strips[i], id),
                ));
            }
            Ok(StateDelta::InstrumentRemoved { id, unpatched })
        },
        None => Err(unknown_instrument_error(id)),
    }
}

fn set_instrument_voice(
    next: &mut MixerState,
    id: InstrumentId,
    soundfont: Option<String>,
    polyphony: u16,
    effects: bool,
) -> (result: Result<StateDelta, MixError>)
    ensures
        outcome(result, final(next)@) == voice_set(
            old(next)@,
            id,
            text_of(soundfont),
            polyphony,
            effects,
        ),
{
    if polyphony < MIN_POLYPHONY || polyphony > MAX_POLYPHONY {
        return Err(
            MixError::OutOfRange { field: "polyphony", value: Single::from_u16(polyphony) },
        );
    }
    match find_instrument(&next.instruments, id) {
        Some(i) => {
            next.instruments[i].soundfont = soundfont;
            next.instruments[i].polyphony = polyphony;
            next.instruments[i].effects = effects;
            let instrument: InstrumentState = next.instruments[i].clone();
            assert(next@ =~= with_instrument(old(next)@, i as int, instrument@));
            Ok(StateDelta::InstrumentChanged { instrument })
        },
        None => Err(unknown_instrument_error(id)),
    }
}

fn set_instrument_performance(
    next: &mut MixerState,
    id: InstrumentId,
    name: &str,
    bank: u16,
    program: u8,
    port: Option<String>,
    midi_channel: Option<u8>,
) -> (result: Result<StateDelta, MixError>)
    ensures
        outcome(result, final(next)@) == performance_set(
            old(next)@,
            id,
            name@,
            bank,
            program,
            text_of(port),
            midi_channel,
        ),
{
    let name: String = match check_name(name) {
        Ok(v) => v,
        Err(e) => return Err(e),
    };
    if program > 127 {
        return Err(
            MixError::OutOfRange { field: "program", value: Single::from_u16(program as u16) },
        );
    }
    match midi_channel {
        Some(channel) => {
            if channel > 15 {
                return Err(
                    MixError::OutOfRange {
                        field: "midi_channel",
                        value: Single::from_u16(channel as u16),
                    },
                );
            }
        },
        None => {},
    }
    match find_instrument(&next.instruments, id) {
        Some(i) => {
            next.instruments[i].name = name;
            next.instruments[i].bank = bank;
            next.instruments[i].program = program;
            next.instruments[i].port = port;
            next.instruments[i].midi_channel = midi_channel;
            let instrument: InstrumentState = next.instruments[i].clone();
            assert(next@ =~= with_instrument(old(next)@, i as int, instrument@));
            Ok(StateDelta::InstrumentChanged { instrument })
        },
        None => Err(unknown_instrument_error(id)),
    }
}

/// Whether some range runs backwards or leaves the keyboard.
fn any_bad_range(ranges: &Vec<(u8, u8)>) -> (bad: bool)
    ensures
        bad == exists|i: int| 0 <= i < ranges@.len() && bad_range(#[trigger] ranges@[i]),
{
    let mut i: usize = 0;
    while i < ranges.len()
        invariant
            i <= ranges.len(),
            forall|j: int| 0 <= j < i ==> !bad_range(#[trigger] ranges@[j]),
        decreases ranges.len() - i,
    {
        if ranges[i].0 > ranges[i].1 || ranges[i].1 > 127 {
            assert(bad_range(ranges@[i as int]));
            return true;
        }
        i = i + 1;
    }
    false
}

/// Whether a split is fit for the desk.
fn check_split(split: &InstrumentSplit) -> (checked: Result<(), MixError>)
    ensures
        match checked {
            Ok(_) => split_fault(split@) is None,
            Err(e) => split_fault(split@) == Some(e@),
        },
{
    match check_name(split.name.as_str()) {
        Ok(_) => {},
        Err(e) => return Err(e),
    }
    if split.ranges.len() == 0 {
        return Err(MixError::BadName("a split needs at least one key range"));
    }
    if any_bad_range(&split.ranges) {
        return Err(MixError::OutOfRange { field: "key range", value: Single { bits: 0 } });
    }
    Ok(())
}

/// Whether every split is fit for the desk.
fn check_splits(splits: &Vec<InstrumentSplit>) -> (checked: Result<(), MixError>)
    ensures
        match checked {
            Ok(_) => first_split_fault(views(splits@), 0) is None,
            Err(e) => first_split_fault(views(splits@), 0) == Some(e@),
        },
{
    let ghost all = views(splits@);
    let mut i: usize = 0;
    while i < splits.len()
        invariant
            all == views(splits@),
            i <= splits.len(),
            first_split_fault(all, 0) == first_split_fault(all, i as int),
        decreases splits.len() - i,
    {
        match check_split(&splits[i]) {
            Ok(_) => {},
            Err(e) => return Err(e),
        }
        i = i + 1;
    }
    Ok(())
}

/// Pulls every patch past an instrument's new width.
fn pull_past_width(strips: &mut Vec<StripState>, id: InstrumentId, width: usize)
    ensures
        views(final(strips)@) == Seq::new(
            old(strips)@.len(),
            |i: int| within_width(old(strips)@[i]@, id, width as nat),
        ),
{
    let mut i: usize = 0;
    while i < strips.len()
        invariant
            strips@.len() == old(strips)@.len(),
            i <= strips.len(),
            forall|j: int|
                0 <= j < i ==> (#[trigger] strips@[j])@ == within_width(
                    old(strips)@[j]@,
                    id,
                    width as nat,
                ),
            forall|j: int| i <= j < strips@.len() ==> strips@[j] == old(strips)@[j],
        decreases strips.len() - i,
    {
        let past: bool = match &strips[i].input {
            Some(assign) => assign.instrument_id() == Some(id) && assign.channel() as usize
                >= width,
            None => false,
        };
        if past {
            strips[i].input = None;
        }
        i = i + 1;
    }
    assert(views(strips@) =~= Seq::new(
        old(strips)@.len(),
        |i: int| within_width(old(strips)@[i]@, id, width as nat),
    ));
}

fn set_instrument_splits(
    next: &mut MixerState,
    id: InstrumentId,
    splits: Vec<InstrumentSplit>,
) -> (result: Result<StateDelta, MixError>)
    ensures
        outcome(result, final(next)@) == splits_set(old(next)@, id, views(splits@)),
{
    match check_splits(&splits) {
        Ok(_) => {},
        Err(e) => return Err(e),
    }
    match find_instrument(&next.instruments, id) {
        Some(i) => {
            next.instruments[i].splits = splits;
            let instrument: InstrumentState = next.instruments[i].clone();
            pull_past_width(&mut next.strips, id, instrument.channels());
            proof {
                let s = old(next)@;
                assert(next@.strips =~= Seq::new(
                    s.strips.len(),
                    |j: int| within_width(s.strips[j], id, instrument@.width()),
                ));
                assert(next@.instruments =~= s.instruments.update(i as int, instrument@));
            }
            Ok(StateDelta::InstrumentChanged { instrument })
        },
        None => Err(unknown_instrument_error(id)),
    }
}

/// Whether a strip is patched to exactly that input.
fn any_strip_on(strips: &Vec<StripState>, input: &InputAssign) -> (found: bool)
    ensures
        found == on_the_desk(views(strips@), input@),
{
    let ghost all = views(strips@);
    let mut i: usize = 0;
    while i < strips.len()
        invariant
            all == views(strips@),
            i <= strips.len(),
            forall|j: int| 0 <= j < i ==> (#[trigger] all[j]).input != Some(input@),
        decreases strips.len() - i,
    {
        let here: bool = match &strips[i].input {
            Some(assign) => assign.same_as(input),
            None => false,
        };
        if here {
            assert(all[i as int].input == Some(input@));
            return true;
        }
        i = i + 1;
    }
    false
}

/// Puts one channel on the desk if it is not there yet.
fn add_channel_strip(
    next: &mut MixerState,
    added: &mut Vec<StripState>,
    id: InstrumentId,
    channel: usize,
    name: &str,
) -> (result: Result<(), MixError>)
    requires
        !on_the_desk(old(next)@.strips, channel_patch(id, channel as int)) && old(
            next,
        )@.strips.len() < MAX_STRIPS ==> old(next)@.next_strip() <= u32::MAX,
    ensures
        match result {
            Err(e) => !on_the_desk(old(next)@.strips, channel_patch(id, channel as int)) && (if old(
                next,
            )@.strips.len() >= MAX_STRIPS {
                e@ == ErrorView::Unsupported("the console is full"@)
            } else {
                tape_name(name@) == Err::<Seq<char>, ErrorView>(e@)
            }),
            Ok(_) => if on_the_desk(old(next)@.strips, channel_patch(id, channel as int)) {
                final(next)@ == old(next)@ && views(final(added)@) == views(old(added)@)
            } else {
                let kept = trimmed(name@);
                let strip = channel_strip(
                    old(next)@.strip_mark,
                    old(next)@.strips,
                    id,
                    channel as int,
                    kept,
                );
                &&& old(next)@.strips.len() < MAX_STRIPS
                &&& tape_name(name@) == Ok::<Seq<char>, ErrorView>(kept)
                &&& final(next)@ == (MixerView {
                    strips: old(next)@.strips.push(strip),
                    ..old(next)@
                })
                &&& views(final(added)@) == views(old(added)@).push(strip)
            },
        },
{
    let wanted: InputAssign = InputAssign::instrument(id, channel as u16);
    if any_strip_on(&next.strips, &wanted) {
        return Ok(());
    }
    if next.strips.len() >= MAX_STRIPS {
        return Err(MixError::Unsupported("the console is full"));
    }
    let number: StripId = next.next_strip_id();
    let name: String = match check_name(name) {
        Ok(v) => v,
        Err(e) => return Err(e),
    };
    let mut strip: StripState = StripState::new(number, name);
    strip.input = Some(wanted);
    next.strips.push(strip.clone());
    added.push(strip);
    proof {
        assert(next@.strips =~= old(next)@.strips.push(strip@));
        assert(views(added@) =~= views(old(added)@).push(strip@));
    }
    Ok(())
}

fn add_instrument_strips(next: &mut MixerState, id: InstrumentId) -> (result: Result<
    StateDelta,
    MixError,
>)
    requires
        numbers_fit(old(next)@, MixCommand::AddInstrumentStrips { id }),
    ensures
        outcome(result, final(next)@) == instrument_strips_added(old(next)@, id),
{
    let names: Vec<String> = match find_instrument(&next.instruments, id) {
        Some(i) => next.instruments[i].channel_names(),
        None => return Err(unknown_instrument_error(id)),
    };
    let ghost s = next@;
    let ghost texts = texts_of(names@);
    let mut added: Vec<StripState> = Vec::new();
    let mut channel: usize = 0;
    assert(views(added@) =~= s.strips.skip(s.strips.len() as int));
    while channel < names.len()
        invariant
            s == old(next)@,
            texts == texts_of(names@),
            channel <= names.len(),
            next@ == (MixerView { strips: next@.strips, ..s }),
            next@.strips.len() >= s.strips.len(),
            views(added@) == next@.strips.skip(s.strips.len() as int),
            desk_with(s.strip_mark, s.strips, id, texts, 0) == desk_with(
                s.strip_mark,
                next@.strips,
                id,
                texts,
                channel as int,
            ),
            desk_numbers_fit(s.strip_mark, next@.strips, id, texts, channel as int),
            s.instrument_at(id) is Some,
            texts == s.instruments[s.instrument_at(id)->0].names(),
        decreases names.len() - channel,
    {
        let ghost before = next@.strips;
        match add_channel_strip(next, &mut added, id, channel, names[channel].as_str()) {
            Ok(_) => {},
            Err(e) => return Err(e),
        }
        proof {
            assert(texts[channel as int] == names@[channel as int]@);
            assert(views(added@) =~= next@.strips.skip(s.strips.len() as int));
        }
        channel = channel + 1;
    }
    Ok(StateDelta::InstrumentStripsAdded { id, added })
}

/// How an unknown source reads in an error.
fn source_name(source: &OutputSource) -> (name: String)
    ensures
        name@ == source_label(*source),
{
    match source {
        OutputSource::Strip { id } => id.to_string(),
        OutputSource::Bus { id } => id.to_string(),
        OutputSource::Master => "master".to_owned(),
    }
}

/// How an unknown jack reads in an error.
fn jack_name(jack: &OutputJack) -> (name: String)
    requires
        jack.channel < u16::MAX,
    ensures
        name@ == jack_label(jack@),
{
    match &jack.device {
        Some(device) => {
            let mut name: String = device.clone();
            name.append(" out ");
            push_numeral(&mut name, jack.channel as u64 + 1);
            name
        },
        None => numbered("out ", jack.channel as u64 + 1),
    }
}

fn set_output_patch(next: &mut MixerState, patch: OutputPatch) -> (result: Result<
    StateDelta,
    MixError,
>)
    ensures
        outcome(result, final(next)@) == output_patched(old(next)@, patch@),
{
    let width: u16 = match next.source_channels(&patch.source) {
        Some(w) => w,
        None => return Err(MixError::UnknownTarget(source_name(&patch.source))),
    };
    if patch.source_channel >= width {
        return Err(
            MixError::OutOfRange {
                field: "source_channel",
                value: Single::from_u16(patch.source_channel),
            },
        );
    }
    let jack: OutputJack = patch.jack();
    match find_output(&next.outputs, &jack) {
        Some(i) => {
            next.outputs[i] = patch.clone();
            assert(next@.outputs =~= old(next)@.outputs.update(i as int, patch@));
        },
        None => {
            if next.outputs.len() >= MAX_OUTPUT_PATCHES {
                return Err(MixError::Unsupported("the output patch bay is full"));
            }
            next.outputs.push(patch.clone());
            assert(next@.outputs =~= old(next)@.outputs.push(patch@));
        },
    }
    Ok(StateDelta::OutputPatched { patch })
}

/// The patches on other jacks.
fn patches_off(outputs: &Vec<OutputPatch>, jack: &OutputJack) -> (kept: Vec<OutputPatch>)
    ensures
        views(kept@) == views(outputs@).filter(other_jack(jack@)),
{
    let ghost all = views(outputs@);
    let mut kept: Vec<OutputPatch> = Vec::new();
    let mut i: usize = 0;
    proof {
        lemma_filter_none(all, other_jack(jack@));
        assert(views(kept@) =~= Seq::empty());
    }
    while i < outputs.len()
        invariant
            all == views(outputs@),
            i <= outputs.len(),
            views(kept@) == all.take(i as int).filter(other_jack(jack@)),
        decreases outputs.len() - i,
    {
        proof {
            lemma_filter_step(all, other_jack(jack@), i as int);
        }
        let ghost before = kept@;
        if !outputs[i].is(jack) {
            kept.push(outputs[i].clone());
            assert(views(kept@) =~= views(before).push(all[i as int]));
        }
        i = i + 1;
    }
    assert(all.take(i as int) =~= all);
    kept
}

fn clear_output_patch(next: &mut MixerState, jack: OutputJack) -> (result: Result<
    StateDelta,
    MixError,
>)
    requires
        numbers_fit(old(next)@, MixCommand::ClearOutputPatch { jack }),
    ensures
        outcome(result, final(next)@) == output_cleared(old(next)@, jack@),
{
    match find_output(&next.outputs, &jack) {
        Some(_) => {
            next.outputs = patches_off(&next.outputs, &jack);
            Ok(StateDelta::OutputUnpatched { jack })
        },
        None => Err(MixError::UnknownTarget(jack_name(&jack))),
    }
}

fn set_output_tap(next: &mut MixerState, jack: OutputJack, tap: SendTap) -> (result: Result<
    StateDelta,
    MixError,
>)
    requires
        numbers_fit(old(next)@, MixCommand::SetOutputTap { jack, tap }),
    ensures
        outcome(result, final(next)@) == output_tap_set(old(next)@, jack@, tap),
{
    match find_output(&next.outputs, &jack) {
        Some(i) => {
            next.outputs[i].tap = tap;
            assert(next@.outputs =~= old(next)@.outputs.update(
                i as int,
                next@.outputs[i as int],
            ));
            Ok(StateDelta::OutputTap { jack, tap })
        },
        None => Err(MixError::UnknownTarget(jack_name(&jack))),
    }
}

/// The next state, the delta to broadcast, and what the engine needs.
pub type Applied = (MixerState, StateDelta, ReconcileNeed);

/// What the reducer's answer comes to, in the model.
pub open spec fn applied_outcome(applied: Result<Applied, MixError>) -> Change {
    match applied {
        Ok(a) => Ok((a.0@, a.1@)),
        Err(e) => Err(e@),
    }
}

/// The reducer. The state handed in is left as it is; on a refusal nothing
/// changes.
pub fn apply(state: &MixerState, command: MixCommand) -> (applied: Result<Applied, MixError>)
    requires
        numbers_fit(state@, command),
    ensures
        applied_outcome(applied) == change(state@, command),
        applied matches Ok(a) ==> a.2 == need(command),
{
    let mut next: MixerState = state.clone();
    let wanted: ReconcileNeed = if command.stops_the_tape() {
        ReconcileNeed::Topology
    } else {
        ReconcileNeed::ParamOnly
    };
    let result: Result<StateDelta, MixError> = match command {
        MixCommand::SetFader { target, level_db } => set_fader(&mut next, target, level_db),
        MixCommand::SetGain { strip, gain_db } => set_gain(&mut next, strip, gain_db),
        MixCommand::SetEqBand { strip, band, freq_hz, gain_db, q } => set_eq_band(
            &mut next,
            strip,
            band,
            freq_hz,
            gain_db,
            q,
        ),
        MixCommand::SetEqEnabled { strip, enabled } => set_eq_enabled(&mut next, strip, enabled),
        MixCommand::SetPan { strip, pan } => set_pan(&mut next, strip, pan),
        MixCommand::SetMute { target, mute } => set_mute(&mut next, target, mute),
        MixCommand::SetPfl { target, on } => set_pfl(&mut next, target, on),
        MixCommand::SetInput { strip, input } => set_input(&mut next, strip, input),
        MixCommand::Rename { target, name } => rename(&mut next, target, name.as_str()),
        MixCommand::AddStrip { name } => add_strip(&mut next, name),
        MixCommand::RemoveStrip { id } => remove_strip(&mut next, id),
        MixCommand::SetSend { strip, dest, level_db, tap } => set_send(
            &mut next,
            strip,
            dest,
            level_db,
            tap,
        ),
        MixCommand::SetRoute { strip, to } => set_route(&mut next, strip, to),
        MixCommand::SetFxParams { fx, params } => set_fx_params(&mut next, fx, params),
        MixCommand::SetFxReturn { fx, level_db } => set_fx_return(&mut next, fx, level_db),
        MixCommand::AddBus { kind, name } => add_bus(&mut next, kind, name),
        MixCommand::RemoveBus { id } => remove_bus(&mut next, id),
        MixCommand::SetRecordArm { target, armed } => set_record_arm(&mut next, target, armed),
        MixCommand::SetRecordArmAll { armed } => set_record_arm_all(&mut next, armed),
        MixCommand::AddInstrument { name } => add_instrument(&mut next, name),
        MixCommand::RemoveInstrument { id } => remove_instrument(&mut next, id),
        MixCommand::SetInstrumentVoice { id, soundfont, polyphony, effects } =>
            set_instrument_voice(&mut next, id, soundfont, polyphony, effects),
        MixCommand::SetInstrumentPerformance { id, name, bank, program, port, midi_channel } =>
            set_instrument_performance(
            &mut next,
            id,
            name.as_str(),
            bank,
            program,
            port,
            midi_channel,
        ),
        MixCommand::SetInstrumentSplits { id, splits } => set_instrument_splits(
            &mut next,
            id,
            splits,
        ),
        MixCommand::AddInstrumentStrips { id } => add_instrument_strips(&mut next, id),
        MixCommand::SetOutputPatch { patch } => set_output_patch(&mut next, patch),
        MixCommand::ClearOutputPatch { jack } => clear_output_patch(&mut next, jack),
        MixCommand::SetOutputTap { jack, tap } => set_output_tap(&mut next, jack, tap),
    };
    match result {
        Ok(delta) => Ok((next, delta, wanted)),
        Err(e) => Err(e),
    }
}

} // verus!
