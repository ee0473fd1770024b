//! What an index reaches: every control moves its own knob and nothing else.

use vstd::prelude::*;

use crate::console::eq::EqBandKind;
use crate::engine::compiled::EqCoeffs;
use crate::engine::compiled::EqKnob;
use crate::engine::compiled::EqTarget;
use crate::engine::compiled::FlagSlot;
use crate::engine::compiled::FxKnobs;
use crate::engine::compiled::GraphView;
use crate::engine::compiled::Knob;
use crate::engine::compiled::Level;
use crate::engine::compiled::ParamSlot;
use crate::engine::dispatch::eq_changed;
use crate::engine::dispatch::flag_switched;
use crate::engine::dispatch::param_moved;
use crate::engine::rings::EqIx;
use crate::engine::rings::FlagIx;
use crate::engine::rings::ParamIx;
use crate::single::Single;

verus! {

/// A new target reaches the gain of a strip, and nothing else moves.
pub proof fn moving_a_strip_gain(g: GraphView, p: ParamIx, i: u16, target: Single)
    requires
        p.0 < g.params.len(),
        g.params[p.0 as int] == ParamSlot::StripGain(i),
        i < g.strips.len(),
    ensures
        ({
            let next = param_moved(g, p, target);
            &&& next.block_size == g.block_size
            &&& next.buses == g.buses
            &&& next.fx == g.fx
            &&& next.outs == g.outs
            &&& next.master_fader == g.master_fader
            &&& next.params == g.params
            &&& next.flags == g.flags
            &&& next.eqs == g.eqs
            &&& next.meter_count == g.meter_count
            &&& next.strips.len() == g.strips.len()
            &&& forall|j: int|
                0 <= j < g.strips.len() && j != i ==> #[trigger] next.strips[j] == g.strips[j]
            &&& next.strips[i as int].source == g.strips[i as int].source
            &&& next.strips[i as int].gain == (Knob { target: Level::Linear(target), moved: true })
            &&& next.strips[i as int].eq_enabled == g.strips[i as int].eq_enabled
            &&& next.strips[i as int].low == g.strips[i as int].low
            &&& next.strips[i as int].mid == g.strips[i as int].mid
            &&& next.strips[i as int].high == g.strips[i as int].high
            &&& next.strips[i as int].mute == g.strips[i as int].mute
            &&& next.strips[i as int].fader == g.strips[i as int].fader
            &&& next.strips[i as int].pan == g.strips[i as int].pan
            &&& next.strips[i as int].pfl == g.strips[i as int].pfl
            &&& next.strips[i as int].route == g.strips[i as int].route
            &&& next.strips[i as int].sends == g.strips[i as int].sends
        }),
{
}

/// A new target reaches the fader of a strip, and nothing else moves.
pub proof fn moving_a_strip_fader(g: GraphView, p: ParamIx, i: u16, target: Single)
    requires
        p.0 < g.params.len(),
        g.params[p.0 as int] == ParamSlot::StripFader(i),
        i < g.strips.len(),
    ensures
        ({
            let next = param_moved(g, p, target);
            &&& next.block_size == g.block_size
            &&& next.buses == g.buses
            &&& next.fx == g.fx
            &&& next.outs == g.outs
            &&& next.master_fader == g.master_fader
            &&& next.params == g.params
            &&& next.flags == g.flags
            &&& next.eqs == g.eqs
            &&& next.meter_count == g.meter_count
            &&& next.strips.len() == g.strips.len()
            &&& forall|j: int|
                0 <= j < g.strips.len() && j != i ==> #[trigger] next.strips[j] == g.strips[j]
            &&& next.strips[i as int].source == g.strips[i as int].source
            &&& next.strips[i as int].gain == g.strips[i as int].gain
            &&& next.strips[i as int].eq_enabled == g.strips[i as int].eq_enabled
            &&& next.strips[i as int].low == g.strips[i as int].low
            &&& next.strips[i as int].mid == g.strips[i as int].mid
            &&& next.strips[i as int].high == g.strips[i as int].high
            &&& next.strips[i as int].mute == g.strips[i as int].mute
            &&& next.strips[i as int].fader == (Knob { target: Level::Linear(target), moved: true })
            &&& next.strips[i as int].pan == g.strips[i as int].pan
            &&& next.strips[i as int].pfl == g.strips[i as int].pfl
            &&& next.strips[i as int].route == g.strips[i as int].route
            &&& next.strips[i as int].sends == g.strips[i as int].sends
        }),
{
}

/// A new target reaches the pan of a strip, and nothing else moves.
pub proof fn moving_a_strip_pan(g: GraphView, p: ParamIx, i: u16, target: Single)
    requires
        p.0 < g.params.len(),
        g.params[p.0 as int] == ParamSlot::StripPan(i),
        i < g.strips.len(),
    ensures
        ({
            let next = param_moved(g, p, target);
            &&& next.block_size == g.block_size
            &&& next.buses == g.buses
            &&& next.fx == g.fx
            &&& next.outs == g.outs
            &&& next.master_fader == g.master_fader
            &&& next.params == g.params
            &&& next.flags == g.flags
            &&& next.eqs == g.eqs
            &&& next.meter_count == g.meter_count
            &&& next.strips.len() == g.strips.len()
            &&& forall|j: int|
                0 <= j < g.strips.len() && j != i ==> #[trigger] next.strips[j] == g.strips[j]
            &&& next.strips[i as int].source == g.strips[i as int].source
            &&& next.strips[i as int].gain == g.strips[i as int].gain
            &&& next.strips[i as int].eq_enabled == g.strips[i as int].eq_enabled
            &&& next.strips[i as int].low == g.strips[i as int].low
            &&& next.strips[i as int].mid == g.strips[i as int].mid
            &&& next.strips[i as int].high == g.strips[i as int].high
            &&& next.strips[i as int].mute == g.strips[i as int].mute
            &&& next.strips[i as int].fader == g.strips[i as int].fader
            &&& next.strips[i as int].pan == (Knob { target: Level::Linear(target), moved: true })
            &&& next.strips[i as int].pfl == g.strips[i as int].pfl
            &&& next.strips[i as int].route == g.strips[i as int].route
            &&& next.strips[i as int].sends == g.strips[i as int].sends
        }),
{
}

/// A new target reaches the mute of a strip, and nothing else moves.
pub proof fn moving_a_strip_mute(g: GraphView, p: ParamIx, i: u16, target: Single)
    requires
        p.0 < g.params.len(),
        g.params[p.0 as int] == ParamSlot::StripMute(i),
        i < g.strips.len(),
    ensures
        ({
            let next = param_moved(g, p, target);
            &&& next.block_size == g.block_size
            &&& next.buses == g.buses
            &&& next.fx == g.fx
            &&& next.outs == g.outs
            &&& next.master_fader == g.master_fader
            &&& next.params == g.params
            &&& next.flags == g.flags
            &&& next.eqs == g.eqs
            &&& next.meter_count == g.meter_count
            &&& next.strips.len() == g.strips.len()
            &&& forall|j: int|
                0 <= j < g.strips.len() && j != i ==> #[trigger] next.strips[j] == g.strips[j]
            &&& next.strips[i as int].source == g.strips[i as int].source
            &&& next.strips[i as int].gain == g.strips[i as int].gain
            &&& next.strips[i as int].eq_enabled == g.strips[i as int].eq_enabled
            &&& next.strips[i as int].low == g.strips[i as int].low
            &&& next.strips[i as int].mid == g.strips[i as int].mid
            &&& next.strips[i as int].high == g.strips[i as int].high
            &&& next.strips[i as int].mute == (Knob { target: Level::Linear(target), moved: true })
            &&& next.strips[i as int].fader == g.strips[i as int].fader
            &&& next.strips[i as int].pan == g.strips[i as int].pan
            &&& next.strips[i as int].pfl == g.strips[i as int].pfl
            &&& next.strips[i as int].route == g.strips[i as int].route
            &&& next.strips[i as int].sends == g.strips[i as int].sends
        }),
{
}

/// A new target reaches the one send, and nothing else moves.
pub proof fn moving_a_send(g: GraphView, p: ParamIx, i: u16, k: u16, target: Single)
    requires
        p.0 < g.params.len(),
        g.params[p.0 as int] == ParamSlot::StripSend(i, k),
        i < g.strips.len(),
        k < g.strips[i as int].sends.len(),
    ensures
        ({
            let next = param_moved(g, p, target);
            &&& next.block_size == g.block_size
            &&& next.buses == g.buses
            &&& next.fx == g.fx
            &&& next.outs == g.outs
            &&& next.master_fader == g.master_fader
            &&& next.params == g.params
            &&& next.flags == g.flags
            &&& next.eqs == g.eqs
            &&& next.meter_count == g.meter_count
            &&& next.strips.len() == g.strips.len()
            &&& forall|j: int|
                0 <= j < g.strips.len() && j != i ==> #[trigger] next.strips[j] == g.strips[j]
            &&& next.strips[i as int].source == g.strips[i as int].source
            &&& next.strips[i as int].gain == g.strips[i as int].gain
            &&& next.strips[i as int].eq_enabled == g.strips[i as int].eq_enabled
            &&& next.strips[i as int].low == g.strips[i as int].low
            &&& next.strips[i as int].mid == g.strips[i as int].mid
            &&& next.strips[i as int].high == g.strips[i as int].high
            &&& next.strips[i as int].mute == g.strips[i as int].mute
            &&& next.strips[i as int].fader == g.strips[i as int].fader
            &&& next.strips[i as int].pan == g.strips[i as int].pan
            &&& next.strips[i as int].pfl == g.strips[i as int].pfl
            &&& next.strips[i as int].route == g.strips[i as int].route
            &&& next.strips[i as int].sends.len() == g.strips[i as int].sends.len()
            &&& next.strips[i as int].sends[k as int].bus == g.strips[i as int].sends[k as int].bus
            &&& next.strips[i as int].sends[k as int].pre == g.strips[i as int].sends[k as int].pre
            &&& next.strips[i as int].sends[k as int].level == (Knob { target: Level::Linear(target), moved: true })
            &&& forall|j: int|
                0 <= j < g.strips[i as int].sends.len() && j != k
                    ==> #[trigger] next.strips[i as int].sends[j] == g.strips[i as int].sends[j]
        }),
{
}

/// A new target reaches the fader of a bus, and nothing else moves.
pub proof fn moving_a_bus_fader(g: GraphView, p: ParamIx, i: u16, target: Single)
    requires
        p.0 < g.params.len(),
        g.params[p.0 as int] == ParamSlot::BusFader(i),
        i < g.buses.len(),
    ensures
        ({
            let next = param_moved(g, p, target);
            &&& next.block_size == g.block_size
            &&& next.strips == g.strips
            &&& next.fx == g.fx
            &&& next.outs == g.outs
            &&& next.master_fader == g.master_fader
            &&& next.params == g.params
            &&& next.flags == g.flags
            &&& next.eqs == g.eqs
            &&& next.meter_count == g.meter_count
            &&& next.buses.len() == g.buses.len()
            &&& forall|j: int|
                0 <= j < g.buses.len() && j != i ==> #[trigger] next.buses[j] == g.buses[j]
            &&& next.buses[i as int].kind == g.buses[i as int].kind
            &&& next.buses[i as int].fader == (Knob { target: Level::Linear(target), moved: true })
            &&& next.buses[i as int].mute == g.buses[i as int].mute
            &&& next.buses[i as int].pfl == g.buses[i as int].pfl
        }),
{
}

/// A new target reaches the mute of a bus, and nothing else moves.
pub proof fn moving_a_bus_mute(g: GraphView, p: ParamIx, i: u16, target: Single)
    requires
        p.0 < g.params.len(),
        g.params[p.0 as int] == ParamSlot::BusMute(i),
        i < g.buses.len(),
    ensures
        ({
            let next = param_moved(g, p, target);
            &&& next.block_size == g.block_size
            &&& next.strips == g.strips
            &&& next.fx == g.fx
            &&& next.outs == g.outs
            &&& next.master_fader == g.master_fader
            &&& next.params == g.params
            &&& next.flags == g.flags
            &&& next.eqs == g.eqs
            &&& next.meter_count == g.meter_count
            &&& next.buses.len() == g.buses.len()
            &&& forall|j: int|
                0 <= j < g.buses.len() && j != i ==> #[trigger] next.buses[j] == g.buses[j]
            &&& next.buses[i as int].kind == g.buses[i as int].kind
            &&& next.buses[i as int].fader == g.buses[i as int].fader
            &&& next.buses[i as int].mute == (Knob { target: Level::Linear(target), moved: true })
            &&& next.buses[i as int].pfl == g.buses[i as int].pfl
        }),
{
}

/// A new target reaches the room of a reverb, and nothing else moves. Another kind of
/// unit has no such knob.
pub proof fn moving_a_reverb_room(g: GraphView, p: ParamIx, i: u16, target: Single)
    requires
        p.0 < g.params.len(),
        g.params[p.0 as int] == ParamSlot::FxRoom(i),
        i < g.fx.len(),
    ensures
        ({
            let next = param_moved(g, p, target);
            &&& next.block_size == g.block_size
            &&& next.strips == g.strips
            &&& next.buses == g.buses
            &&& next.outs == g.outs
            &&& next.master_fader == g.master_fader
            &&& next.params == g.params
            &&& next.flags == g.flags
            &&& next.eqs == g.eqs
            &&& next.meter_count == g.meter_count
            &&& next.fx.len() == g.fx.len()
            &&& forall|j: int|
                0 <= j < g.fx.len() && j != i ==> #[trigger] next.fx[j] == g.fx[j]
            &&& next.fx[i as int].input == g.fx[i as int].input
            &&& next.fx[i as int].return_level == g.fx[i as int].return_level
            &&& match (g.fx[i as int].knobs, next.fx[i as int].knobs) {
                (FxKnobs::Reverb { room, damp }, FxKnobs::Reverb { room: new_room, damp: new_damp }) => {
                    &&& new_room == (Knob { target: Level::Linear(target), moved: true })
                    &&& new_damp == damp
                },
                (old_knobs, new_knobs) => !(old_knobs is Reverb) && new_knobs == old_knobs,
            }
        }),
{
}

/// A new target reaches the damp of a reverb, and nothing else moves. Another kind of
/// unit has no such knob.
pub proof fn moving_a_reverb_damp(g: GraphView, p: ParamIx, i: u16, target: Single)
    requires
        p.0 < g.params.len(),
        g.params[p.0 as int] == ParamSlot::FxDamp(i),
        i < g.fx.len(),
    ensures
        ({
            let next = param_moved(g, p, target);
            &&& next.block_size == g.block_size
            &&& next.strips == g.strips
            &&& next.buses == g.buses
            &&& next.outs == g.outs
            &&& next.master_fader == g.master_fader
            &&& next.params == g.params
            &&& next.flags == g.flags
            &&& next.eqs == g.eqs
            &&& next.meter_count == g.meter_count
            &&& next.fx.len() == g.fx.len()
            &&& forall|j: int|
                0 <= j < g.fx.len() && j != i ==> #[trigger] next.fx[j] == g.fx[j]
            &&& next.fx[i as int].input == g.fx[i as int].input
            &&& next.fx[i as int].return_level == g.fx[i as int].return_level
            &&& match (g.fx[i as int].knobs, next.fx[i as int].knobs) {
                (FxKnobs::Reverb { room, damp }, FxKnobs::Reverb { room: new_room, damp: new_damp }) => {
                    &&& new_damp == (Knob { target: Level::Linear(target), moved: true })
                    &&& new_room == room
                },
                (old_knobs, new_knobs) => !(old_knobs is Reverb) && new_knobs == old_knobs,
            }
        }),
{
}

/// A new target reaches the time of a delay, and nothing else moves. Another kind of
/// unit has no such knob.
pub proof fn moving_a_delay_time(g: GraphView, p: ParamIx, i: u16, target: Single)
    requires
        p.0 < g.params.len(),
        g.params[p.0 as int] == ParamSlot::FxTime(i),
        i < g.fx.len(),
    ensures
        ({
            let next = param_moved(g, p, target);
            &&& next.block_size == g.block_size
            &&& next.strips == g.strips
            &&& next.buses == g.buses
            &&& next.outs == g.outs
            &&& next.master_fader == g.master_fader
            &&& next.params == g.params
            &&& next.flags == g.flags
            &&& next.eqs == g.eqs
            &&& next.meter_count == g.meter_count
            &&& next.fx.len() == g.fx.len()
            &&& forall|j: int|
                0 <= j < g.fx.len() && j != i ==> #[trigger] next.fx[j] == g.fx[j]
            &&& next.fx[i as int].input == g.fx[i as int].input
            &&& next.fx[i as int].return_level == g.fx[i as int].return_level
            &&& match (g.fx[i as int].knobs, next.fx[i as int].knobs) {
                (FxKnobs::Delay { time, feedback }, FxKnobs::Delay { time: new_time, feedback: new_feedback }) => {
                    &&& new_time == (Knob { target: Level::Linear(target), moved: true })
                    &&& new_feedback == feedback
                },
                (old_knobs, new_knobs) => !(old_knobs is Delay) && new_knobs == old_knobs,
            }
        }),
{
}

/// A new target reaches the feedback of a delay, and nothing else moves. Another kind of
/// unit has no such knob.
pub proof fn moving_a_delay_feedback(g: GraphView, p: ParamIx, i: u16, target: Single)
    requires
        p.0 < g.params.len(),
        g.params[p.0 as int] == ParamSlot::FxFeedback(i),
        i < g.fx.len(),
    ensures
        ({
            let next = param_moved(g, p, target);
            &&& next.block_size == g.block_size
            &&& next.strips == g.strips
            &&& next.buses == g.buses
            &&& next.outs == g.outs
            &&& next.master_fader == g.master_fader
            &&& next.params == g.params
            &&& next.flags == g.flags
            &&& next.eqs == g.eqs
            &&& next.meter_count == g.meter_count
            &&& next.fx.len() == g.fx.len()
            &&& forall|j: int|
                0 <= j < g.fx.len() && j != i ==> #[trigger] next.fx[j] == g.fx[j]
            &&& next.fx[i as int].input == g.fx[i as int].input
            &&& next.fx[i as int].return_level == g.fx[i as int].return_level
            &&& match (g.fx[i as int].knobs, next.fx[i as int].knobs) {
                (FxKnobs::Delay { time, feedback }, FxKnobs::Delay { time: new_time, feedback: new_feedback }) => {
                    &&& new_feedback == (Knob { target: Level::Linear(target), moved: true })
                    &&& new_time == time
                },
                (old_knobs, new_knobs) => !(old_knobs is Delay) && new_knobs == old_knobs,
            }
        }),
{
}

/// A new target reaches the return of a unit, and nothing else moves.
pub proof fn moving_an_fx_return(g: GraphView, p: ParamIx, i: u16, target: Single)
    requires
        p.0 < g.params.len(),
        g.params[p.0 as int] == ParamSlot::FxReturn(i),
        i < g.fx.len(),
    ensures
        ({
            let next = param_moved(g, p, target);
            &&& next.block_size == g.block_size
            &&& next.strips == g.strips
            &&& next.buses == g.buses
            &&& next.outs == g.outs
            &&& next.master_fader == g.master_fader
            &&& next.params == g.params
            &&& next.flags == g.flags
            &&& next.eqs == g.eqs
            &&& next.meter_count == g.meter_count
            &&& next.fx.len() == g.fx.len()
            &&& forall|j: int|
                0 <= j < g.fx.len() && j != i ==> #[trigger] next.fx[j] == g.fx[j]
            &&& next.fx[i as int].input == g.fx[i as int].input
            &&& next.fx[i as int].knobs == g.fx[i as int].knobs
            &&& next.fx[i as int].return_level == (Knob { target: Level::Linear(target), moved: true })
        }),
{
}

/// A new target reaches the master fader, and nothing else moves.
pub proof fn moving_the_master_fader(g: GraphView, p: ParamIx, target: Single)
    requires
        p.0 < g.params.len(),
        g.params[p.0 as int] == ParamSlot::MasterFader,
    ensures
        ({
            let next = param_moved(g, p, target);
            &&& next.block_size == g.block_size
            &&& next.strips == g.strips
            &&& next.buses == g.buses
            &&& next.fx == g.fx
            &&& next.outs == g.outs
            &&& next.params == g.params
            &&& next.flags == g.flags
            &&& next.eqs == g.eqs
            &&& next.meter_count == g.meter_count
            &&& next.master_fader == (Knob { target: Level::Linear(target), moved: true })
        }),
{
}

/// A switch reaches the PFL of a strip, and nothing else changes.
pub proof fn switching_a_strip_pfl(g: GraphView, p: FlagIx, i: u16, on: bool)
    requires
        p.0 < g.flags.len(),
        g.flags[p.0 as int] == FlagSlot::StripPfl(i),
        i < g.strips.len(),
    ensures
        ({
            let next = flag_switched(g, p, on);
            &&& next.block_size == g.block_size
            &&& next.buses == g.buses
            &&& next.fx == g.fx
            &&& next.outs == g.outs
            &&& next.master_fader == g.master_fader
            &&& next.params == g.params
            &&& next.flags == g.flags
            &&& next.eqs == g.eqs
            &&& next.meter_count == g.meter_count
            &&& next.strips.len() == g.strips.len()
            &&& forall|j: int|
                0 <= j < g.strips.len() && j != i ==> #[trigger] next.strips[j] == g.strips[j]
            &&& next.strips[i as int].source == g.strips[i as int].source
            &&& next.strips[i as int].gain == g.strips[i as int].gain
            &&& next.strips[i as int].eq_enabled == g.strips[i as int].eq_enabled
            &&& next.strips[i as int].low == g.strips[i as int].low
            &&& next.strips[i as int].mid == g.strips[i as int].mid
            &&& next.strips[i as int].high == g.strips[i as int].high
            &&& next.strips[i as int].mute == g.strips[i as int].mute
            &&& next.strips[i as int].fader == g.strips[i as int].fader
            &&& next.strips[i as int].pan == g.strips[i as int].pan
            &&& next.strips[i as int].pfl == on
            &&& next.strips[i as int].route == g.strips[i as int].route
            &&& next.strips[i as int].sends == g.strips[i as int].sends
        }),
{
}

/// A switch reaches the equaliser of a strip, and nothing else changes.
pub proof fn switching_an_equaliser(g: GraphView, p: FlagIx, i: u16, on: bool)
    requires
        p.0 < g.flags.len(),
        g.flags[p.0 as int] == FlagSlot::StripEq(i),
        i < g.strips.len(),
    ensures
        ({
            let next = flag_switched(g, p, on);
            &&& next.block_size == g.block_size
            &&& next.buses == g.buses
            &&& next.fx == g.fx
            &&& next.outs == g.outs
            &&& next.master_fader == g.master_fader
            &&& next.params == g.params
            &&& next.flags == g.flags
            &&& next.eqs == g.eqs
            &&& next.meter_count == g.meter_count
            &&& next.strips.len() == g.strips.len()
            &&& forall|j: int|
                0 <= j < g.strips.len() && j != i ==> #[trigger] next.strips[j] == g.strips[j]
            &&& next.strips[i as int].source == g.strips[i as int].source
            &&& next.strips[i as int].gain == g.strips[i as int].gain
            &&& next.strips[i as int].eq_enabled == on
            &&& next.strips[i as int].low == g.strips[i as int].low
            &&& next.strips[i as int].mid == g.strips[i as int].mid
            &&& next.strips[i as int].high == g.strips[i as int].high
            &&& next.strips[i as int].mute == g.strips[i as int].mute
            &&& next.strips[i as int].fader == g.strips[i as int].fader
            &&& next.strips[i as int].pan == g.strips[i as int].pan
            &&& next.strips[i as int].pfl == g.strips[i as int].pfl
            &&& next.strips[i as int].route == g.strips[i as int].route
            &&& next.strips[i as int].sends == g.strips[i as int].sends
        }),
{
}

/// A switch puts the one send before the fader or behind it, and nothing else changes.
pub proof fn switching_a_send(g: GraphView, p: FlagIx, i: u16, k: u16, on: bool)
    requires
        p.0 < g.flags.len(),
        g.flags[p.0 as int] == FlagSlot::StripSendPre(i, k),
        i < g.strips.len(),
        k < g.strips[i as int].sends.len(),
    ensures
        ({
            let next = flag_switched(g, p, on);
            &&& next.block_size == g.block_size
            &&& next.buses == g.buses
            &&& next.fx == g.fx
            &&& next.outs == g.outs
            &&& next.master_fader == g.master_fader
            &&& next.params == g.params
            &&& next.flags == g.flags
            &&& next.eqs == g.eqs
            &&& next.meter_count == g.meter_count
            &&& next.strips.len() == g.strips.len()
            &&& forall|j: int|
                0 <= j < g.strips.len() && j != i ==> #[trigger] next.strips[j] == g.strips[j]
            &&& next.strips[i as int].source == g.strips[i as int].source
            &&& next.strips[i as int].gain == g.strips[i as int].gain
            &&& next.strips[i as int].eq_enabled == g.strips[i as int].eq_enabled
            &&& next.strips[i as int].low == g.strips[i as int].low
            &&& next.strips[i as int].mid == g.strips[i as int].mid
            &&& next.strips[i as int].high == g.strips[i as int].high
            &&& next.strips[i as int].mute == g.strips[i as int].mute
            &&& next.strips[i as int].fader == g.strips[i as int].fader
            &&& next.strips[i as int].pan == g.strips[i as int].pan
            &&& next.strips[i as int].pfl == g.strips[i as int].pfl
            &&& next.strips[i as int].route == g.strips[i as int].route
            &&& next.strips[i as int].sends.len() == g.strips[i as int].sends.len()
            &&& next.strips[i as int].sends[k as int].bus == g.strips[i as int].sends[k as int].bus
            &&& next.strips[i as int].sends[k as int].level == g.strips[i as int].sends[k as int].level
            &&& next.strips[i as int].sends[k as int].pre == on
            &&& forall|j: int|
                0 <= j < g.strips[i as int].sends.len() && j != k
                    ==> #[trigger] next.strips[i as int].sends[j] == g.strips[i as int].sends[j]
        }),
{
}

/// A switch reaches the PFL of a bus, and nothing else changes.
pub proof fn switching_a_bus_pfl(g: GraphView, p: FlagIx, i: u16, on: bool)
    requires
        p.0 < g.flags.len(),
        g.flags[p.0 as int] == FlagSlot::BusPfl(i),
        i < g.buses.len(),
    ensures
        ({
            let next = flag_switched(g, p, on);
            &&& next.block_size == g.block_size
            &&& next.strips == g.strips
            &&& next.fx == g.fx
            &&& next.outs == g.outs
            &&& next.master_fader == g.master_fader
            &&& next.params == g.params
            &&& next.flags == g.flags
            &&& next.eqs == g.eqs
            &&& next.meter_count == g.meter_count
            &&& next.buses.len() == g.buses.len()
            &&& forall|j: int|
                0 <= j < g.buses.len() && j != i ==> #[trigger] next.buses[j] == g.buses[j]
            &&& next.buses[i as int].kind == g.buses[i as int].kind
            &&& next.buses[i as int].fader == g.buses[i as int].fader
            &&& next.buses[i as int].mute == g.buses[i as int].mute
            &&& next.buses[i as int].pfl == on
        }),
{
}

/// A switch puts the tap of an out before the fader or behind it, and nothing else
/// changes.
pub proof fn switching_an_out(g: GraphView, p: FlagIx, i: u16, on: bool)
    requires
        p.0 < g.flags.len(),
        g.flags[p.0 as int] == FlagSlot::OutputPre(i),
        i < g.outs.len(),
    ensures
        ({
            let next = flag_switched(g, p, on);
            &&& next.block_size == g.block_size
            &&& next.strips == g.strips
            &&& next.buses == g.buses
            &&& next.fx == g.fx
            &&& next.master_fader == g.master_fader
            &&& next.params == g.params
            &&& next.flags == g.flags
            &&& next.eqs == g.eqs
            &&& next.meter_count == g.meter_count
            &&& next.outs.len() == g.outs.len()
            &&& forall|j: int|
                0 <= j < g.outs.len() && j != i ==> #[trigger] next.outs[j] == g.outs[j]
            &&& next.outs[i as int].patch == g.outs[i as int].patch
            &&& next.outs[i as int].channel == g.outs[i as int].channel
            &&& next.outs[i as int].source == g.outs[i as int].source
            &&& next.outs[i as int].side == g.outs[i as int].side
            &&& next.outs[i as int].pre == on
        }),
{
}

/// New coefficients reach the low band of the strip, and nothing else changes.
pub proof fn changing_the_low_band(g: GraphView, p: EqIx, i: u16, coeffs: EqCoeffs)
    requires
        p.0 < g.eqs.len(),
        g.eqs[p.0 as int].strip == i,
        g.eqs[p.0 as int].band == EqBandKind::LowShelf,
        i < g.strips.len(),
    ensures
        ({
            let next = eq_changed(g, p, coeffs);
            &&& next.block_size == g.block_size
            &&& next.buses == g.buses
            &&& next.fx == g.fx
            &&& next.outs == g.outs
            &&& next.master_fader == g.master_fader
            &&& next.params == g.params
            &&& next.flags == g.flags
            &&& next.eqs == g.eqs
            &&& next.meter_count == g.meter_count
            &&& next.strips.len() == g.strips.len()
            &&& forall|j: int|
                0 <= j < g.strips.len() && j != i ==> #[trigger] next.strips[j] == g.strips[j]
            &&& next.strips[i as int].source == g.strips[i as int].source
            &&& next.strips[i as int].gain == g.strips[i as int].gain
            &&& next.strips[i as int].eq_enabled == g.strips[i as int].eq_enabled
            &&& next.strips[i as int].low == (EqKnob { target: EqTarget::Coeffs(coeffs), moved: true })
            &&& next.strips[i as int].mid == g.strips[i as int].mid
            &&& next.strips[i as int].high == g.strips[i as int].high
            &&& next.strips[i as int].mute == g.strips[i as int].mute
            &&& next.strips[i as int].fader == g.strips[i as int].fader
            &&& next.strips[i as int].pan == g.strips[i as int].pan
            &&& next.strips[i as int].pfl == g.strips[i as int].pfl
            &&& next.strips[i as int].route == g.strips[i as int].route
            &&& next.strips[i as int].sends == g.strips[i as int].sends
        }),
{
}

/// New coefficients reach the mid band of the strip, and nothing else changes.
pub proof fn changing_the_mid_band(g: GraphView, p: EqIx, i: u16, coeffs: EqCoeffs)
    requires
        p.0 < g.eqs.len(),
        g.eqs[p.0 as int].strip == i,
        g.eqs[p.0 as int].band == EqBandKind::Peak,
        i < g.strips.len(),
    ensures
        ({
            let next = eq_changed(g, p, coeffs);
            &&& next.block_size == g.block_size
            &&& next.buses == g.buses
            &&& next.fx == g.fx
            &&& next.outs == g.outs
            &&& next.master_fader == g.master_fader
            &&& next.params == g.params
            &&& next.flags == g.flags
            &&& next.eqs == g.eqs
            &&& next.meter_count == g.meter_count
            &&& next.strips.len() == g.strips.len()
            &&& forall|j: int|
                0 <= j < g.strips.len() && j != i ==> #[trigger] next.strips[j] == g.strips[j]
            &&& next.strips[i as int].source == g.strips[i as int].source
            &&& next.strips[i as int].gain == g.strips[i as int].gain
            &&& next.strips[i as int].eq_enabled == g.strips[i as int].eq_enabled
            &&& next.strips[i as int].low == g.strips[i as int].low
            &&& next.strips[i as int].mid == (EqKnob { target: EqTarget::Coeffs(coeffs), moved: true })
            &&& next.strips[i as int].high == g.strips[i as int].high
            &&& next.strips[i as int].mute == g.strips[i as int].mute
            &&& next.strips[i as int].fader == g.strips[i as int].fader
            &&& next.strips[i as int].pan == g.strips[i as int].pan
            &&& next.strips[i as int].pfl == g.strips[i as int].pfl
            &&& next.strips[i as int].route == g.strips[i as int].route
            &&& next.strips[i as int].sends == g.strips[i as int].sends
        }),
{
}

/// New coefficients reach the high band of the strip, and nothing else changes.
pub proof fn changing_the_high_band(g: GraphView, p: EqIx, i: u16, coeffs: EqCoeffs)
    requires
        p.0 < g.eqs.len(),
        g.eqs[p.0 as int].strip == i,
        g.eqs[p.0 as int].band == EqBandKind::HighShelf,
        i < g.strips.len(),
    ensures
        ({
            let next = eq_changed(g, p, coeffs);
            &&& next.block_size == g.block_size
            &&& next.buses == g.buses
            &&& next.fx == g.fx
            &&& next.outs == g.outs
            &&& next.master_fader == g.master_fader
            &&& next.params == g.params
            &&& next.flags == g.flags
            &&& next.eqs == g.eqs
            &&& next.meter_count == g.meter_count
            &&& next.strips.len() == g.strips.len()
            &&& forall|j: int|
                0 <= j < g.strips.len() && j != i ==> #[trigger] next.strips[j] == g.strips[j]
            &&& next.strips[i as int].source == g.strips[i as int].source
            &&& next.strips[i as int].gain == g.strips[i as int].gain
            &&& next.strips[i as int].eq_enabled == g.strips[i as int].eq_enabled
            &&& next.strips[i as int].low == g.strips[i as int].low
            &&& next.strips[i as int].mid == g.strips[i as int].mid
            &&& next.strips[i as int].high == (EqKnob { target: EqTarget::Coeffs(coeffs), moved: true })
            &&& next.strips[i as int].mute == g.strips[i as int].mute
            &&& next.strips[i as int].fader == g.strips[i as int].fader
            &&& next.strips[i as int].pan == g.strips[i as int].pan
            &&& next.strips[i as int].pfl == g.strips[i as int].pfl
            &&& next.strips[i as int].route == g.strips[i as int].route
            &&& next.strips[i as int].sends == g.strips[i as int].sends
        }),
{
}

} // verus!
