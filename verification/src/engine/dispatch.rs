//! Commands landing on a compiled graph: which control an index reaches, and
//! what moving it changes.

use vstd::prelude::*;

use crate::console::eq::EqBandKind;
use crate::engine::compiled::CompiledGraph;
use crate::engine::compiled::DirectOut;
use crate::engine::compiled::EqCoeffs;
use crate::engine::compiled::EqKnob;
use crate::engine::compiled::EqSlot;
use crate::engine::compiled::EqTarget;
use crate::engine::compiled::FlagSlot;
use crate::engine::compiled::FxKnobs;
use crate::engine::compiled::FxNode;
use crate::engine::compiled::GraphView;
use crate::engine::compiled::Knob;
use crate::engine::compiled::Level;
use crate::engine::compiled::ParamSlot;
use crate::engine::compiled::SendSlot;
use crate::engine::compiled::StripNodeView;
use crate::engine::compiled::BusNode;
use crate::engine::rings::EqIx;
use crate::engine::rings::FlagIx;
use crate::engine::rings::ParamIx;
use crate::single::Single;

verus! {

/// Whether a continuous control's slot names a node that is there.
pub open spec fn param_fits(g: GraphView, slot: ParamSlot) -> bool {
    match slot {
        ParamSlot::StripGain(i) => i < g.strips.len(),
        ParamSlot::StripFader(i) => i < g.strips.len(),
        ParamSlot::StripPan(i) => i < g.strips.len(),
        ParamSlot::StripMute(i) => i < g.strips.len(),
        ParamSlot::StripSend(i, k) => i < g.strips.len() && k < g.strips[i as int].sends.len(),
        ParamSlot::BusFader(i) => i < g.buses.len(),
        ParamSlot::BusMute(i) => i < g.buses.len(),
        ParamSlot::FxRoom(i) => i < g.fx.len(),
        ParamSlot::FxDamp(i) => i < g.fx.len(),
        ParamSlot::FxTime(i) => i < g.fx.len(),
        ParamSlot::FxFeedback(i) => i < g.fx.len(),
        ParamSlot::FxReturn(i) => i < g.fx.len(),
        ParamSlot::MasterFader => true,
    }
}

/// Whether a switch's slot names a node that is there.
pub open spec fn flag_fits(g: GraphView, slot: FlagSlot) -> bool {
    match slot {
        FlagSlot::StripPfl(i) => i < g.strips.len(),
        FlagSlot::StripEq(i) => i < g.strips.len(),
        FlagSlot::StripSendPre(i, k) => i < g.strips.len() && k < g.strips[i as int].sends.len(),
        FlagSlot::BusPfl(i) => i < g.buses.len(),
        FlagSlot::OutputPre(i) => i < g.outs.len(),
    }
}

/// Whether every slot of the tables names a node that is there.
pub open spec fn tables_fit(g: GraphView) -> bool {
    &&& forall|k: int| 0 <= k < g.params.len() ==> param_fits(g, #[trigger] g.params[k])
    &&& forall|k: int| 0 <= k < g.flags.len() ==> flag_fits(g, #[trigger] g.flags[k])
    &&& forall|k: int| 0 <= k < g.eqs.len() ==> (#[trigger] g.eqs[k]).strip < g.strips.len()
}

/// A control that a command has put somewhere.
pub open spec fn knob_at(target: Single) -> Knob {
    Knob { target: Level::Linear(target), moved: true }
}

pub open spec fn with_strip(g: GraphView, i: u16, node: StripNodeView) -> GraphView {
    GraphView { strips: g.strips.update(i as int, node), ..g }
}

pub open spec fn with_bus(g: GraphView, i: u16, node: BusNode) -> GraphView {
    GraphView { buses: g.buses.update(i as int, node), ..g }
}

pub open spec fn with_fx(g: GraphView, i: u16, node: FxNode) -> GraphView {
    GraphView { fx: g.fx.update(i as int, node), ..g }
}

/// The graph after a continuous control has been moved. A slot that asks an
/// effects unit for a knob it does not have changes nothing.
pub open spec fn slot_moved(g: GraphView, slot: ParamSlot, knob: Knob) -> GraphView {
    match slot {
        ParamSlot::StripGain(i) => with_strip(
            g,
            i,
            StripNodeView { gain: knob, ..g.strips[i as int] },
        ),
        ParamSlot::StripFader(i) => with_strip(
            g,
            i,
            StripNodeView { fader: knob, ..g.strips[i as int] },
        ),
        ParamSlot::StripPan(i) => with_strip(
            g,
            i,
            StripNodeView { pan: knob, ..g.strips[i as int] },
        ),
        ParamSlot::StripMute(i) => with_strip(
            g,
            i,
            StripNodeView { mute: knob, ..g.strips[i as int] },
        ),
        ParamSlot::StripSend(i, k) => {
            let strip = g.strips[i as int];
            let send = SendSlot { level: knob, ..strip.sends[k as int] };
            with_strip(
                g,
                i,
                StripNodeView { sends: strip.sends.update(k as int, send), ..strip },
            )
        },
        ParamSlot::BusFader(i) => with_bus(g, i, BusNode { fader: knob, ..g.buses[i as int] }),
        ParamSlot::BusMute(i) => with_bus(g, i, BusNode { mute: knob, ..g.buses[i as int] }),
        ParamSlot::FxRoom(i) => match g.fx[i as int].knobs {
            FxKnobs::Reverb { room, damp } => with_fx(
                g,
                i,
                FxNode { knobs: FxKnobs::Reverb { room: knob, damp }, ..g.fx[i as int] },
            ),
            FxKnobs::Delay { .. } => g,
        },
        ParamSlot::FxDamp(i) => match g.fx[i as int].knobs {
            FxKnobs::Reverb { room, damp } => with_fx(
                g,
                i,
                FxNode { knobs: FxKnobs::Reverb { room, damp: knob }, ..g.fx[i as int] },
            ),
            FxKnobs::Delay { .. } => g,
        },
        ParamSlot::FxTime(i) => match g.fx[i as int].knobs {
            FxKnobs::Delay { time, feedback } => with_fx(
                g,
                i,
                FxNode { knobs: FxKnobs::Delay { time: knob, feedback }, ..g.fx[i as int] },
            ),
            FxKnobs::Reverb { .. } => g,
        },
        ParamSlot::FxFeedback(i) => match g.fx[i as int].knobs {
            FxKnobs::Delay { time, feedback } => with_fx(
                g,
                i,
                FxNode { knobs: FxKnobs::Delay { time, feedback: knob }, ..g.fx[i as int] },
            ),
            FxKnobs::Reverb { .. } => g,
        },
        ParamSlot::FxReturn(i) => with_fx(
            g,
            i,
            FxNode { return_level: knob, ..g.fx[i as int] },
        ),
        ParamSlot::MasterFader => GraphView { master_fader: knob, ..g },
    }
}

/// The graph after a move by index. An index past the table, or a slot without
/// a node, changes nothing.
pub open spec fn param_moved(g: GraphView, param: ParamIx, target: Single) -> GraphView {
    if param.0 < g.params.len() && param_fits(g, g.params[param.0 as int]) {
        slot_moved(g, g.params[param.0 as int], knob_at(target))
    } else {
        g
    }
}

/// The graph after a switch has been set.
pub open spec fn slot_switched(g: GraphView, slot: FlagSlot, on: bool) -> GraphView {
    match slot {
        FlagSlot::StripPfl(i) => with_strip(
            g,
            i,
            StripNodeView { pfl: on, ..g.strips[i as int] },
        ),
        FlagSlot::StripEq(i) => with_strip(
            g,
            i,
            StripNodeView { eq_enabled: on, ..g.strips[i as int] },
        ),
        FlagSlot::StripSendPre(i, k) => {
            let strip = g.strips[i as int];
            let send = SendSlot { pre: on, ..strip.sends[k as int] };
            with_strip(
                g,
                i,
                StripNodeView { sends: strip.sends.update(k as int, send), ..strip },
            )
        },
        FlagSlot::BusPfl(i) => with_bus(g, i, BusNode { pfl: on, ..g.buses[i as int] }),
        FlagSlot::OutputPre(i) => GraphView {
            outs: g.outs.update(i as int, DirectOut { pre: on, ..g.outs[i as int] }),
            ..g
        },
    }
}

/// The graph after a switch has been set by index. An index past the table, or
/// a slot without a node, changes nothing.
pub open spec fn flag_switched(g: GraphView, flag: FlagIx, on: bool) -> GraphView {
    if flag.0 < g.flags.len() && flag_fits(g, g.flags[flag.0 as int]) {
        slot_switched(g, g.flags[flag.0 as int], on)
    } else {
        g
    }
}

/// The graph after a filter has been given other coefficients.
pub open spec fn eq_changed(g: GraphView, eq: EqIx, coeffs: EqCoeffs) -> GraphView {
    if eq.0 < g.eqs.len() && g.eqs[eq.0 as int].strip < g.strips.len() {
        let slot = g.eqs[eq.0 as int];
        let strip = g.strips[slot.strip as int];
        let knob = EqKnob { target: EqTarget::Coeffs(coeffs), moved: true };
        with_strip(
            g,
            slot.strip,
            match slot.band {
                EqBandKind::LowShelf => StripNodeView { low: knob, ..strip },
                EqBandKind::Peak => StripNodeView { mid: knob, ..strip },
                EqBandKind::HighShelf => StripNodeView { high: knob, ..strip },
            },
        )
    } else {
        g
    }
}

impl<D> CompiledGraph<D> {
    /// Every slot of the tables names a node that is there.
    pub open spec fn wf(&self) -> bool {
        tables_fit(self@)
    }

    /// The block size that the graph was compiled for.
    pub fn block_size(&self) -> (frames: usize)
        ensures
            frames == self@.block_size,
    {
        self.block_size
    }

    /// How many points the graph meters.
    pub fn meter_count(&self) -> (points: usize)
        ensures
            points == self@.meter_count,
    {
        self.meter_count
    }

    fn holds_param(&self, slot: ParamSlot) -> (fits: bool)
        ensures
            fits == param_fits(self@, slot),
    {
        match slot {
            ParamSlot::StripGain(i) => (i as usize) < self.strips.len(),
            ParamSlot::StripFader(i) => (i as usize) < self.strips.len(),
            ParamSlot::StripPan(i) => (i as usize) < self.strips.len(),
            ParamSlot::StripMute(i) => (i as usize) < self.strips.len(),
            ParamSlot::StripSend(i, k) => (i as usize) < self.strips.len() && (k as usize)
                < self.strips[i as usize].sends.len(),
            ParamSlot::BusFader(i) => (i as usize) < self.buses.len(),
            ParamSlot::BusMute(i) => (i as usize) < self.buses.len(),
            ParamSlot::FxRoom(i) => (i as usize) < self.fx.len(),
            ParamSlot::FxDamp(i) => (i as usize) < self.fx.len(),
            ParamSlot::FxTime(i) => (i as usize) < self.fx.len(),
            ParamSlot::FxFeedback(i) => (i as usize) < self.fx.len(),
            ParamSlot::FxReturn(i) => (i as usize) < self.fx.len(),
            ParamSlot::MasterFader => true,
        }
    }

    fn holds_flag(&self, slot: FlagSlot) -> (fits: bool)
        ensures
            fits == flag_fits(self@, slot),
    {
        match slot {
            FlagSlot::StripPfl(i) => (i as usize) < self.strips.len(),
            FlagSlot::StripEq(i) => (i as usize) < self.strips.len(),
            FlagSlot::StripSendPre(i, k) => (i as usize) < self.strips.len() && (k as usize)
                < self.strips[i as usize].sends.len(),
            FlagSlot::BusPfl(i) => (i as usize) < self.buses.len(),
            FlagSlot::OutputPre(i) => (i as usize) < self.outs.len(),
        }
    }

    /// Moves a continuous control. An index that is left over from another
    /// graph is ignored.
    pub fn set_param(&mut self, param: ParamIx, target: Single)
        ensures
            old(self).wf() ==> final(self).wf(),
            final(self)@ == param_moved(old(self)@, param, target),
            final(self).dsp == old(self).dsp,
    {
        let ghost before = self@;
        let index: usize = param.0 as usize;
        if index >= self.params.len() {
            return;
        }
        let slot: ParamSlot = self.params[index];
        let knob = Knob { target: Level::Linear(target), moved: true };
        if !self.holds_param(slot) {
            return;
        }
        match slot {
            ParamSlot::StripGain(i) => {
                self.strips[i as usize].gain = knob;
            },
            ParamSlot::StripFader(i) => {
                self.strips[i as usize].fader = knob;
            },
            ParamSlot::StripPan(i) => {
                self.strips[i as usize].pan = knob;
            },
            ParamSlot::StripMute(i) => {
                self.strips[i as usize].mute = knob;
            },
            ParamSlot::StripSend(i, k) => {
                self.strips[i as usize].sends[k as usize].level = knob;
            },
            ParamSlot::BusFader(i) => {
                self.buses[i as usize].fader = knob;
            },
            ParamSlot::BusMute(i) => {
                self.buses[i as usize].mute = knob;
            },
            ParamSlot::FxRoom(i) => {
                if let FxKnobs::Reverb { room: _, damp } = self.fx[i as usize].knobs {
                    self.fx[i as usize].knobs = FxKnobs::Reverb { room: knob, damp };
                }
            },
            ParamSlot::FxDamp(i) => {
                if let FxKnobs::Reverb { room, damp: _ } = self.fx[i as usize].knobs {
                    self.fx[i as usize].knobs = FxKnobs::Reverb { room, damp: knob };
                }
            },
            ParamSlot::FxTime(i) => {
                if let FxKnobs::Delay { time: _, feedback } = self.fx[i as usize].knobs {
                    self.fx[i as usize].knobs = FxKnobs::Delay { time: knob, feedback };
                }
            },
            ParamSlot::FxFeedback(i) => {
                if let FxKnobs::Delay { time, feedback: _ } = self.fx[i as usize].knobs {
                    self.fx[i as usize].knobs = FxKnobs::Delay { time, feedback: knob };
                }
            },
            ParamSlot::FxReturn(i) => {
                self.fx[i as usize].return_level = knob;
            },
            ParamSlot::MasterFader => {
                self.master_fader = knob;
            },
        }
        proof {
            assert(self@ =~= param_moved(before, param, target));
            if tables_fit(before) {
                lemma_move_keeps_fit(before, before.params[index as int], knob);
            }
        }
    }

    /// Sets a switch. An index that is left over from another graph is ignored.
    pub fn set_flag(&mut self, flag: FlagIx, on: bool)
        ensures
            old(self).wf() ==> final(self).wf(),
            final(self)@ == flag_switched(old(self)@, flag, on),
            final(self).dsp == old(self).dsp,
    {
        let ghost before = self@;
        let index: usize = flag.0 as usize;
        if index >= self.flags.len() {
            return;
        }
        let slot: FlagSlot = self.flags[index];
        if !self.holds_flag(slot) {
            return;
        }
        match slot {
            FlagSlot::StripPfl(i) => {
                self.strips[i as usize].pfl = on;
            },
            FlagSlot::StripEq(i) => {
                self.strips[i as usize].eq_enabled = on;
            },
            FlagSlot::StripSendPre(i, k) => {
                self.strips[i as usize].sends[k as usize].pre = on;
            },
            FlagSlot::BusPfl(i) => {
                self.buses[i as usize].pfl = on;
            },
            FlagSlot::OutputPre(i) => {
                self.outs[i as usize].pre = on;
            },
        }
        proof {
            assert(self@ =~= flag_switched(before, flag, on));
            if tables_fit(before) {
                lemma_switch_keeps_fit(before, before.flags[index as int], on);
            }
        }
    }

    /// Gives a filter other coefficients. An index that is left over from
    /// another graph is ignored.
    pub fn set_eq_coeffs(&mut self, eq: EqIx, coeffs: EqCoeffs)
        ensures
            old(self).wf() ==> final(self).wf(),
            final(self)@ == eq_changed(old(self)@, eq, coeffs),
            final(self).dsp == old(self).dsp,
    {
        let ghost before = self@;
        let index: usize = eq.0 as usize;
        if index >= self.eqs.len() {
            return;
        }
        let slot: EqSlot = self.eqs[index];
        let knob = EqKnob { target: EqTarget::Coeffs(coeffs), moved: true };
        if slot.strip as usize >= self.strips.len() {
            return;
        }
        match slot.band {
            EqBandKind::LowShelf => {
                self.strips[slot.strip as usize].low = knob;
            },
            EqBandKind::Peak => {
                self.strips[slot.strip as usize].mid = knob;
            },
            EqBandKind::HighShelf => {
                self.strips[slot.strip as usize].high = knob;
            },
        }
        proof {
            assert(self@ =~= eq_changed(before, eq, coeffs));
            if tables_fit(before) {
                lemma_same_shape_fits(before, self@);
            }
        }
    }
}

/// The knob that a continuous control's slot reaches.
pub open spec fn knob_of(g: GraphView, slot: ParamSlot) -> Option<Knob> {
    match slot {
        ParamSlot::StripGain(i) => Some(g.strips[i as int].gain),
        ParamSlot::StripFader(i) => Some(g.strips[i as int].fader),
        ParamSlot::StripPan(i) => Some(g.strips[i as int].pan),
        ParamSlot::StripMute(i) => Some(g.strips[i as int].mute),
        ParamSlot::StripSend(i, k) => Some(g.strips[i as int].sends[k as int].level),
        ParamSlot::BusFader(i) => Some(g.buses[i as int].fader),
        ParamSlot::BusMute(i) => Some(g.buses[i as int].mute),
        ParamSlot::FxRoom(i) => match g.fx[i as int].knobs {
            FxKnobs::Reverb { room, .. } => Some(room),
            FxKnobs::Delay { .. } => None,
        },
        ParamSlot::FxDamp(i) => match g.fx[i as int].knobs {
            FxKnobs::Reverb { damp, .. } => Some(damp),
            FxKnobs::Delay { .. } => None,
        },
        ParamSlot::FxTime(i) => match g.fx[i as int].knobs {
            FxKnobs::Delay { time, .. } => Some(time),
            FxKnobs::Reverb { .. } => None,
        },
        ParamSlot::FxFeedback(i) => match g.fx[i as int].knobs {
            FxKnobs::Delay { feedback, .. } => Some(feedback),
            FxKnobs::Reverb { .. } => None,
        },
        ParamSlot::FxReturn(i) => Some(g.fx[i as int].return_level),
        ParamSlot::MasterFader => Some(g.master_fader),
    }
}

/// Moving a control moves that control and no other, and leaves every switch
/// and every route as it was.
pub proof fn a_move_lands_on_its_own_control(
    g: GraphView,
    slot: ParamSlot,
    other: ParamSlot,
    knob: Knob,
)
    requires
        param_fits(g, slot),
        param_fits(g, other),
    ensures
        knob_of(g, slot) is Some ==> knob_of(slot_moved(g, slot, knob), slot) == Some(knob),
        knob_of(g, slot) is None ==> slot_moved(g, slot, knob) == g,
        other != slot ==> knob_of(slot_moved(g, slot, knob), other) == knob_of(g, other),
        slot_moved(g, slot, knob).outs == g.outs,
        forall|i: int|
            0 <= i < g.strips.len() ==> {
                &&& (#[trigger] slot_moved(g, slot, knob).strips[i]).pfl == g.strips[i].pfl
                &&& slot_moved(g, slot, knob).strips[i].route == g.strips[i].route
                &&& slot_moved(g, slot, knob).strips[i].source == g.strips[i].source
            },
{
}

/// An index past the tables, left over from another graph, changes nothing.
pub proof fn a_stale_index_changes_nothing(
    g: GraphView,
    param: ParamIx,
    flag: FlagIx,
    eq: EqIx,
    target: Single,
    on: bool,
    coeffs: EqCoeffs,
)
    ensures
        param.0 >= g.params.len() ==> param_moved(g, param, target) == g,
        flag.0 >= g.flags.len() ==> flag_switched(g, flag, on) == g,
        eq.0 >= g.eqs.len() ==> eq_changed(g, eq, coeffs) == g,
{
}

proof fn lemma_same_shape_fits(g: GraphView, h: GraphView)
    requires
        tables_fit(g),
        h.params == g.params,
        h.flags == g.flags,
        h.eqs == g.eqs,
        h.strips.len() == g.strips.len(),
        forall|i: int|
            0 <= i < g.strips.len() ==> (#[trigger] h.strips[i]).sends.len()
                == g.strips[i].sends.len(),
        h.buses.len() == g.buses.len(),
        h.fx.len() == g.fx.len(),
        h.outs.len() == g.outs.len(),
    ensures
        tables_fit(h),
{
    assert forall|k: int| 0 <= k < h.params.len() implies param_fits(
        h,
        #[trigger] h.params[k],
    ) by {
        assert(param_fits(g, g.params[k]));
    }
    assert forall|k: int| 0 <= k < h.flags.len() implies flag_fits(h, #[trigger] h.flags[k]) by {
        assert(flag_fits(g, g.flags[k]));
    }
    assert forall|k: int| 0 <= k < h.eqs.len() implies (#[trigger] h.eqs[k]).strip
        < h.strips.len() by {
        assert(g.eqs[k].strip < g.strips.len());
    }
}

proof fn lemma_move_keeps_fit(g: GraphView, slot: ParamSlot, knob: Knob)
    requires
        tables_fit(g),
        param_fits(g, slot),
    ensures
        tables_fit(slot_moved(g, slot, knob)),
{
    lemma_same_shape_fits(g, slot_moved(g, slot, knob));
}

proof fn lemma_switch_keeps_fit(g: GraphView, slot: FlagSlot, on: bool)
    requires
        tables_fit(g),
        flag_fits(g, slot),
    ensures
        tables_fit(slot_switched(g, slot, on)),
{
    lemma_same_shape_fits(g, slot_switched(g, slot, on));
}

} // verus!
