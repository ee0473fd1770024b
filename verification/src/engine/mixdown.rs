//! The mix of one frame as a list of steps: which signal is added to which sum,
//! and in what order. The audio side works the steps off with its own
//! arithmetic.

use vstd::prelude::*;

use crate::console::bus::BusKind;
use crate::console::mix::bus_ids;
use crate::console::mix::MixerView;
use crate::engine::compiled::graph_of;
use crate::engine::compiled::BusNode;
use crate::engine::compiled::CompiledGraph;
use crate::engine::compiled::FlagSlot;
use crate::engine::compiled::FxNode;
use crate::engine::compiled::GraphView;
use crate::engine::compiled::SendSlot;
use crate::engine::compiled::StripNode;
use crate::engine::compiled::StripNodeView;
use crate::engine::dispatch::flag_fits;
use crate::engine::dispatch::slot_switched;
use crate::engine::slots::SlotView;

verus! {

/// A signal that is added to a sum.
#[derive(Debug, Clone, Copy, PartialEq, Eq, Structural)]
pub enum Signal {
    /// A strip behind its gain and equalizer, in front of its mute and fader.
    StripPre(usize),
    /// A strip behind its mute and fader.
    StripPost(usize),
    /// What was summed on a bus.
    BusSum(usize),
    /// A bus behind its fader and mute.
    BusPost(usize),
    /// What an effects unit gives, at its return level.
    Return(usize),
}

/// How a signal is added.
#[derive(Debug, Clone, Copy, PartialEq, Eq, Structural)]
pub enum Way {
    /// One side as it is.
    Solo,
    /// The mean of both sides.
    Fold,
    /// To the left side, at the level of the strip's send with this number.
    Send(usize),
    /// To both sides, as the strip's pan has it.
    Pan,
    /// Each side to its own.
    Sides,
    /// To both sides alike.
    Center,
}

/// What signals are added to.
#[derive(Debug, Clone, Copy, PartialEq, Eq, Structural)]
pub enum Sum {
    Bus(usize),
    Mix,
    /// What is listened to in place of the mix.
    Listen,
}

/// A step of the mix of one frame.
#[derive(Debug, Clone, Copy, PartialEq, Eq, Structural)]
pub enum Step {
    /// Works out a strip in front of and behind its fader.
    Strip(usize),
    /// Works out a bus behind its fader.
    Bus(usize),
    /// Runs an effects unit on a signal.
    Effect(usize, Signal),
    Add { from: Signal, way: Way, into: Sum },
}

/// What a send takes from its strip.
pub open spec fn send_tap(i: usize, slot: SendSlot) -> Signal {
    if slot.pre {
        Signal::StripPre(i)
    } else {
        Signal::StripPost(i)
    }
}

/// Where a route leads.
pub open spec fn route_sum(route: Option<u16>) -> Sum {
    match route {
        None => Sum::Mix,
        Some(bus) => Sum::Bus(bus as usize),
    }
}

/// The first `n` sends of a strip.
pub open spec fn send_steps(sends: Seq<SendSlot>, i: usize, n: int) -> Seq<Step>
    decreases n,
{
    if n <= 0 {
        Seq::empty()
    } else {
        send_steps(sends, i, n - 1).push(
            Step::Add {
                from: send_tap(i, sends[n - 1]),
                way: Way::Send((n - 1) as usize),
                into: Sum::Bus(sends[n - 1].bus as usize),
            },
        )
    }
}

/// A strip: heard in front of its fader where it is listened to, then its sends,
/// then what it is routed to.
pub open spec fn strip_steps(strip: StripNodeView, i: usize) -> Seq<Step> {
    let listen = Step::Add { from: Signal::StripPre(i), way: Way::Solo, into: Sum::Listen };
    let first = if strip.pfl {
        seq![Step::Strip(i), listen]
    } else {
        seq![Step::Strip(i)]
    };
    (first + send_steps(strip.sends, i, strip.sends.len() as int)).push(
        Step::Add { from: Signal::StripPost(i), way: Way::Pan, into: route_sum(strip.route) },
    )
}

/// The first `n` strips.
pub open spec fn strip_stage(strips: Seq<StripNodeView>, n: int) -> Seq<Step>
    decreases n,
{
    if n <= 0 {
        Seq::empty()
    } else {
        strip_stage(strips, n - 1) + strip_steps(strips[n - 1], (n - 1) as usize)
    }
}

/// A bus: heard in front of its fader where it is listened to; a group then joins
/// the mix.
pub open spec fn bus_steps(bus: BusNode, b: usize) -> Seq<Step> {
    let listen = Step::Add { from: Signal::BusSum(b), way: Way::Fold, into: Sum::Listen };
    let join = Step::Add { from: Signal::BusPost(b), way: Way::Sides, into: Sum::Mix };
    let first = if bus.pfl {
        seq![listen, Step::Bus(b)]
    } else {
        seq![Step::Bus(b)]
    };
    match bus.kind {
        BusKind::Group => first.push(join),
        BusKind::Aux => first,
    }
}

/// The first `n` buses.
pub open spec fn bus_stage(buses: Seq<BusNode>, n: int) -> Seq<Step>
    decreases n,
{
    if n <= 0 {
        Seq::empty()
    } else {
        bus_stage(buses, n - 1) + bus_steps(buses[n - 1], (n - 1) as usize)
    }
}

/// What an effects unit takes from a bus: an aux behind its fader, a group as it
/// was summed.
pub open spec fn effect_feed(buses: Seq<BusNode>, bus: u16) -> Signal {
    if bus < buses.len() && buses[bus as int].kind == BusKind::Group {
        Signal::BusSum(bus as usize)
    } else {
        Signal::BusPost(bus as usize)
    }
}

/// An effects unit: run on what feeds it and returned to the mix. One that
/// nothing feeds is left out.
pub open spec fn fx_steps(buses: Seq<BusNode>, fx: FxNode, f: usize) -> Seq<Step> {
    match fx.input {
        None => Seq::empty(),
        Some(bus) => seq![
            Step::Effect(f, effect_feed(buses, bus)),
            Step::Add { from: Signal::Return(f), way: Way::Center, into: Sum::Mix },
        ],
    }
}

/// The first `n` effects units.
pub open spec fn fx_stage(buses: Seq<BusNode>, fx: Seq<FxNode>, n: int) -> Seq<Step>
    decreases n,
{
    if n <= 0 {
        Seq::empty()
    } else {
        fx_stage(buses, fx, n - 1) + fx_steps(buses, fx[n - 1], (n - 1) as usize)
    }
}

/// The whole mix of a frame: strips, then buses, then effects.
pub open spec fn mix_steps(g: GraphView) -> Seq<Step> {
    strip_stage(g.strips, g.strips.len() as int) + bus_stage(g.buses, g.buses.len() as int)
        + fx_stage(g.buses, g.fx, g.fx.len() as int)
}

impl StripNode {
    /// Appends the steps of this strip.
    fn plan_strip(&self, i: usize, steps: &mut Vec<Step>)
        ensures
            final(steps)@ == old(steps)@ + strip_steps(self@, i),
    {
        let ghost before = steps@;
        steps.push(Step::Strip(i));
        if self.pfl {
            steps.push(
                Step::Add { from: Signal::StripPre(i), way: Way::Solo, into: Sum::Listen },
            );
        }
        let ghost first = steps@;
        let mut k: usize = 0;
        while k < self.sends.len()
            invariant
                k <= self.sends.len(),
                steps@ == first + send_steps(self@.sends, i, k as int),
            decreases self.sends.len() - k,
        {
            let slot: SendSlot = self.sends[k];
            let from = if slot.pre {
                Signal::StripPre(i)
            } else {
                Signal::StripPost(i)
            };
            steps.push(Step::Add { from, way: Way::Send(k), into: Sum::Bus(slot.bus as usize) });
            k = k + 1;
            assert(steps@ =~= first + send_steps(self@.sends, i, k as int));
        }
        let into = match self.route {
            None => Sum::Mix,
            Some(bus) => Sum::Bus(bus as usize),
        };
        steps.push(Step::Add { from: Signal::StripPost(i), way: Way::Pan, into });
        assert(steps@ =~= before + strip_steps(self@, i));
    }
}

impl BusNode {
    /// Appends the steps of this bus.
    fn plan_bus(&self, b: usize, steps: &mut Vec<Step>)
        ensures
            final(steps)@ == old(steps)@ + bus_steps(*self, b),
    {
        let ghost before = steps@;
        if self.pfl {
            steps.push(Step::Add { from: Signal::BusSum(b), way: Way::Fold, into: Sum::Listen });
        }
        steps.push(Step::Bus(b));
        match self.kind {
            BusKind::Group => {
                steps.push(
                    Step::Add { from: Signal::BusPost(b), way: Way::Sides, into: Sum::Mix },
                );
            },
            BusKind::Aux => {},
        }
        assert(steps@ =~= before + bus_steps(*self, b));
    }
}

impl<D> CompiledGraph<D> {
    /// Lists the steps of the mix of one frame, in place of what the list held.
    /// A list that has room for them does not grow.
    pub fn plan_mix(&self, steps: &mut Vec<Step>)
        ensures
            final(steps)@ == mix_steps(self@),
    {
        let ghost g = self@;
        steps.clear();
        let mut i: usize = 0;
        while i < self.strips.len()
            invariant
                g == self@,
                i <= self.strips.len(),
                steps@ == strip_stage(g.strips, i as int),
            decreases self.strips.len() - i,
        {
            self.strips[i].plan_strip(i, steps);
            assert(g.strips[i as int] == self.strips@[i as int]@);
            i = i + 1;
        }
        let ghost strips = steps@;
        let mut b: usize = 0;
        assert(strips + bus_stage(g.buses, 0) =~= strips);
        while b < self.buses.len()
            invariant
                g == self@,
                b <= self.buses.len(),
                steps@ == strips + bus_stage(g.buses, b as int),
            decreases self.buses.len() - b,
        {
            self.buses[b].plan_bus(b, steps);
            b = b + 1;
            assert(steps@ =~= strips + bus_stage(g.buses, b as int));
        }
        let ghost summed = steps@;
        let mut f: usize = 0;
        assert(summed + fx_stage(g.buses, g.fx, 0) =~= summed);
        while f < self.fx.len()
            invariant
                g == self@,
                f <= self.fx.len(),
                steps@ == summed + fx_stage(g.buses, g.fx, f as int),
            decreases self.fx.len() - f,
        {
            if let Some(bus) = self.fx[f].input {
                let at: usize = bus as usize;
                let group: bool = at < self.buses.len() && self.buses[at].kind == BusKind::Group;
                let feed = if group {
                    Signal::BusSum(at)
                } else {
                    Signal::BusPost(at)
                };
                steps.push(Step::Effect(f, feed));
                steps.push(Step::Add { from: Signal::Return(f), way: Way::Center, into: Sum::Mix });
            }
            f = f + 1;
            assert(steps@ =~= summed + fx_stage(g.buses, g.fx, f as int));
        }
    }
}

/// Whether a step belongs to the mix of a frame.
pub open spec fn due(g: GraphView, step: Step) -> bool {
    match step {
        Step::Strip(i) => i < g.strips.len(),
        Step::Bus(b) => b < g.buses.len(),
        Step::Effect(f, from) => f < g.fx.len() && (g.fx[f as int].input matches Some(bus)
            && from == effect_feed(g.buses, bus)),
        Step::Add { from, way, into } => match (way, from) {
            (Way::Solo, Signal::StripPre(i)) => i < g.strips.len() && g.strips[i as int].pfl && into
                == Sum::Listen,
            (Way::Fold, Signal::BusSum(b)) => b < g.buses.len() && g.buses[b as int].pfl && into
                == Sum::Listen,
            (Way::Send(k), Signal::StripPre(i)) => i < g.strips.len() && send_due(
                g.strips[i as int].sends,
                k as int,
                true,
                into,
            ),
            (Way::Send(k), Signal::StripPost(i)) => i < g.strips.len() && send_due(
                g.strips[i as int].sends,
                k as int,
                false,
                into,
            ),
            (Way::Pan, Signal::StripPost(i)) => i < g.strips.len() && into == route_sum(
                g.strips[i as int].route,
            ),
            (Way::Sides, Signal::BusPost(b)) => b < g.buses.len() && g.buses[b as int].kind
                == BusKind::Group && into == Sum::Mix,
            (Way::Center, Signal::Return(f)) => f < g.fx.len() && g.fx[f as int].input is Some
                && into == Sum::Mix,
            _ => false,
        },
    }
}

/// Whether a strip's send with this number taps the strip there and leads there.
pub open spec fn send_due(sends: Seq<SendSlot>, k: int, pre: bool, into: Sum) -> bool {
    0 <= k < sends.len() && sends[k].pre == pre && into == Sum::Bus(sends[k].bus as usize)
}

/// The strip that a step belongs to.
spec fn strip_of(step: Step) -> Option<usize> {
    match step {
        Step::Strip(i) => Some(i),
        Step::Add { from: Signal::StripPre(i), .. } => Some(i),
        Step::Add { from: Signal::StripPost(i), .. } => Some(i),
        _ => None,
    }
}

/// The bus that a step belongs to.
spec fn bus_of(step: Step) -> Option<usize> {
    match step {
        Step::Bus(b) => Some(b),
        Step::Add { from: Signal::BusSum(b), .. } => Some(b),
        Step::Add { from: Signal::BusPost(b), .. } => Some(b),
        _ => None,
    }
}

/// The effects unit that a step belongs to.
spec fn unit_of(step: Step) -> Option<usize> {
    match step {
        Step::Effect(f, _) => Some(f),
        Step::Add { from: Signal::Return(f), .. } => Some(f),
        _ => None,
    }
}

/// Whether every index of the graph can be counted.
pub open spec fn countable(g: GraphView) -> bool {
    &&& g.strips.len() <= usize::MAX
    &&& g.buses.len() <= usize::MAX
    &&& g.fx.len() <= usize::MAX
    &&& forall|i: int|
        0 <= i < g.strips.len() ==> (#[trigger] g.strips[i]).sends.len() <= usize::MAX
}

proof fn lemma_sends(sends: Seq<SendSlot>, i: usize, n: int, step: Step)
    requires
        0 <= n <= sends.len() <= usize::MAX,
    ensures
        send_steps(sends, i, n).contains(step) <==> (step matches Step::Add {
            from,
            way: Way::Send(k),
            into,
        } && k < n && from == send_tap(i, sends[k as int]) && into == Sum::Bus(
            sends[k as int].bus as usize,
        )),
        send_steps(sends, i, n).no_duplicates(),
    decreases n,
{
    broadcast use vstd::seq_lib::group_seq_properties;

    if n > 0 {
        lemma_sends(sends, i, n - 1, step);
        let last = Step::Add {
            from: send_tap(i, sends[n - 1]),
            way: Way::Send((n - 1) as usize),
            into: Sum::Bus(sends[n - 1].bus as usize),
        };
        lemma_sends(sends, i, n - 1, last);
    }
}

proof fn lemma_strip(strip: StripNodeView, i: usize, step: Step)
    requires
        strip.sends.len() <= usize::MAX,
    ensures
        strip_steps(strip, i).contains(step) <==> match step {
            Step::Strip(j) => j == i,
            Step::Add { from, way, into } => match (way, from) {
                (Way::Solo, Signal::StripPre(j)) => j == i && strip.pfl && into == Sum::Listen,
                (Way::Send(k), Signal::StripPre(j)) => j == i && send_due(
                    strip.sends,
                    k as int,
                    true,
                    into,
                ),
                (Way::Send(k), Signal::StripPost(j)) => j == i && send_due(
                    strip.sends,
                    k as int,
                    false,
                    into,
                ),
                (Way::Pan, Signal::StripPost(j)) => j == i && into == route_sum(strip.route),
                _ => false,
            },
            _ => false,
        },
        strip_steps(strip, i).no_duplicates(),
{
    broadcast use vstd::seq_lib::group_seq_properties;

    let listen = Step::Add { from: Signal::StripPre(i), way: Way::Solo, into: Sum::Listen };
    let pan = Step::Add { from: Signal::StripPost(i), way: Way::Pan, into: route_sum(strip.route) };
    let first = if strip.pfl {
        seq![Step::Strip(i), listen]
    } else {
        seq![Step::Strip(i)]
    };
    let n = strip.sends.len() as int;
    let sends = send_steps(strip.sends, i, n);
    lemma_sends(strip.sends, i, n, step);
    lemma_sends(strip.sends, i, n, Step::Strip(i));
    lemma_sends(strip.sends, i, n, listen);
    lemma_sends(strip.sends, i, n, pan);
    assert(first.contains(step) <==> (step == Step::Strip(i) || strip.pfl && step == listen)) by {
        assert(first[0] == Step::Strip(i));
        if strip.pfl {
            assert(first[1] == listen);
        }
    }
    assert((first + sends).contains(step) <==> first.contains(step) || sends.contains(step));
    assert((first + sends).no_duplicates()) by {
        assert forall|p: int, q: int|
            0 <= p < first.len() && 0 <= q < sends.len() implies first[p] != sends[q] by {
            assert(sends.contains(sends[q]));
        }
    }
    assert(!(first + sends).contains(pan)) by {
        assert(!sends.contains(pan));
        assert(!first.contains(pan));
    }
}

proof fn lemma_joined<A>(a: Seq<A>, b: Seq<A>, x: A)
    requires
        a.no_duplicates(),
        b.no_duplicates(),
        forall|y: A| #[trigger] a.contains(y) ==> !b.contains(y),
    ensures
        (a + b).no_duplicates(),
        (a + b).contains(x) <==> a.contains(x) || b.contains(x),
{
    broadcast use vstd::seq_lib::group_seq_properties;

    assert forall|p: int, q: int| 0 <= p < a.len() && 0 <= q < b.len() implies a[p] != b[q] by {
        assert(a.contains(a[p]));
        assert(b.contains(b[q]));
    }
}

proof fn lemma_strip_stage(g: GraphView, n: int, step: Step)
    requires
        countable(g),
        0 <= n <= g.strips.len(),
    ensures
        strip_stage(g.strips, n).contains(step) <==> (strip_of(step) matches Some(i) && i < n
            && due(g, step)),
        strip_stage(g.strips, n).no_duplicates(),
    decreases n,
{
    if n > 0 {
        let before = strip_stage(g.strips, n - 1);
        let i = (n - 1) as usize;
        let last = strip_steps(g.strips[n - 1], i);
        lemma_strip_stage(g, n - 1, step);
        lemma_strip(g.strips[n - 1], i, step);
        assert forall|y: Step| #[trigger] before.contains(y) implies !last.contains(y) by {
            lemma_strip_stage(g, n - 1, y);
            lemma_strip(g.strips[n - 1], i, y);
        }
        lemma_joined(before, last, step);
    }
}

proof fn lemma_bus(bus: BusNode, b: usize, step: Step)
    ensures
        bus_steps(bus, b).contains(step) <==> match step {
            Step::Bus(j) => j == b,
            Step::Add { from, way, into } => match (way, from) {
                (Way::Fold, Signal::BusSum(j)) => j == b && bus.pfl && into == Sum::Listen,
                (Way::Sides, Signal::BusPost(j)) => j == b && bus.kind == BusKind::Group && into
                    == Sum::Mix,
                _ => false,
            },
            _ => false,
        },
        bus_steps(bus, b).no_duplicates(),
{
    let steps = bus_steps(bus, b);
    let listen = Step::Add { from: Signal::BusSum(b), way: Way::Fold, into: Sum::Listen };
    let join = Step::Add { from: Signal::BusPost(b), way: Way::Sides, into: Sum::Mix };
    let at: int = if bus.pfl {
        1
    } else {
        0
    };
    assert(steps[at] == Step::Bus(b));
    if bus.pfl {
        assert(steps[0] == listen);
    }
    if bus.kind == BusKind::Group {
        assert(steps[at + 1] == join);
    }
}

proof fn lemma_bus_stage(g: GraphView, n: int, step: Step)
    requires
        countable(g),
        0 <= n <= g.buses.len(),
    ensures
        bus_stage(g.buses, n).contains(step) <==> (bus_of(step) matches Some(b) && b < n && due(
            g,
            step,
        )),
        bus_stage(g.buses, n).no_duplicates(),
    decreases n,
{
    if n > 0 {
        let before = bus_stage(g.buses, n - 1);
        let b = (n - 1) as usize;
        let last = bus_steps(g.buses[n - 1], b);
        lemma_bus_stage(g, n - 1, step);
        lemma_bus(g.buses[n - 1], b, step);
        assert forall|y: Step| #[trigger] before.contains(y) implies !last.contains(y) by {
            lemma_bus_stage(g, n - 1, y);
            lemma_bus(g.buses[n - 1], b, y);
        }
        lemma_joined(before, last, step);
    }
}

proof fn lemma_unit(buses: Seq<BusNode>, fx: FxNode, f: usize, step: Step)
    ensures
        fx_steps(buses, fx, f).contains(step) <==> match step {
            Step::Effect(j, from) => j == f && (fx.input matches Some(bus) && from == effect_feed(
                buses,
                bus,
            )),
            Step::Add { from, way, into } => way == Way::Center && from == Signal::Return(f)
                && fx.input is Some && into == Sum::Mix,
            _ => false,
        },
        fx_steps(buses, fx, f).no_duplicates(),
{
    let steps = fx_steps(buses, fx, f);
    if let Some(bus) = fx.input {
        assert(steps[0] == Step::Effect(f, effect_feed(buses, bus)));
        assert(steps[1] == Step::Add {
            from: Signal::Return(f),
            way: Way::Center,
            into: Sum::Mix,
        });
    }
}

proof fn lemma_fx_stage(g: GraphView, n: int, step: Step)
    requires
        countable(g),
        0 <= n <= g.fx.len(),
    ensures
        fx_stage(g.buses, g.fx, n).contains(step) <==> (unit_of(step) matches Some(f) && f < n
            && due(g, step)),
        fx_stage(g.buses, g.fx, n).no_duplicates(),
    decreases n,
{
    if n > 0 {
        let before = fx_stage(g.buses, g.fx, n - 1);
        let f = (n - 1) as usize;
        let last = fx_steps(g.buses, g.fx[n - 1], f);
        lemma_fx_stage(g, n - 1, step);
        lemma_unit(g.buses, g.fx[n - 1], f, step);
        assert forall|y: Step| #[trigger] before.contains(y) implies !last.contains(y) by {
            lemma_fx_stage(g, n - 1, y);
            lemma_unit(g.buses, g.fx[n - 1], f, y);
        }
        lemma_joined(before, last, step);
    }
}

/// The mix of a frame holds every step that is due, no other, and none twice.
pub proof fn the_mix_holds_what_is_due(g: GraphView, step: Step)
    requires
        countable(g),
    ensures
        mix_steps(g).contains(step) <==> due(g, step),
        mix_steps(g).no_duplicates(),
{
    let strips = strip_stage(g.strips, g.strips.len() as int);
    let buses = bus_stage(g.buses, g.buses.len() as int);
    let fx = fx_stage(g.buses, g.fx, g.fx.len() as int);
    lemma_strip_stage(g, g.strips.len() as int, step);
    lemma_bus_stage(g, g.buses.len() as int, step);
    lemma_fx_stage(g, g.fx.len() as int, step);
    assert forall|y: Step| #[trigger] strips.contains(y) implies !buses.contains(y) by {
        lemma_strip_stage(g, g.strips.len() as int, y);
        lemma_bus_stage(g, g.buses.len() as int, y);
    }
    lemma_joined(strips, buses, step);
    assert forall|y: Step| #[trigger] (strips + buses).contains(y) implies !fx.contains(y) by {
        lemma_joined(strips, buses, y);
        lemma_strip_stage(g, g.strips.len() as int, y);
        lemma_bus_stage(g, g.buses.len() as int, y);
        lemma_fx_stage(g, g.fx.len() as int, y);
    }
    lemma_joined(strips + buses, fx, step);
}

/// Whether a step reads what was summed on a bus.
pub open spec fn reads_bus(step: Step, b: usize) -> bool {
    match step {
        Step::Strip(_) => false,
        Step::Bus(j) => j == b,
        Step::Effect(_, from) => from == Signal::BusSum(b) || from == Signal::BusPost(b),
        Step::Add { from, .. } => from == Signal::BusSum(b) || from == Signal::BusPost(b),
    }
}

/// Whether a step adds to a bus.
pub open spec fn adds_to_bus(step: Step, b: usize) -> bool {
    step matches Step::Add { into, .. } && into == Sum::Bus(b)
}

/// A bus is read when everything that is added to it is in.
pub proof fn a_bus_is_read_when_it_is_full(g: GraphView, b: usize, p: int, q: int)
    requires
        countable(g),
        0 <= p < mix_steps(g).len(),
        0 <= q < mix_steps(g).len(),
        adds_to_bus(mix_steps(g)[p], b),
        reads_bus(mix_steps(g)[q], b),
    ensures
        p < q,
{
    let strips = strip_stage(g.strips, g.strips.len() as int);
    let buses = bus_stage(g.buses, g.buses.len() as int);
    let fx = fx_stage(g.buses, g.fx, g.fx.len() as int);
    let steps = mix_steps(g);
    if q < strips.len() {
        assert(strips[q] == steps[q]);
        assert(strips.contains(steps[q]));
        lemma_strip_stage(g, g.strips.len() as int, steps[q]);
    }
    if strips.len() <= p < strips.len() + buses.len() {
        assert(buses[p - strips.len()] == steps[p]);
        assert(buses.contains(steps[p]));
        lemma_bus_stage(g, g.buses.len() as int, steps[p]);
    }
    if strips.len() + buses.len() <= p {
        assert(fx[p - strips.len() - buses.len()] == steps[p]);
        assert(fx.contains(steps[p]));
        lemma_fx_stage(g, g.fx.len() as int, steps[p]);
    }
}

/// What an aux carries reaches the mix through effects units alone.
pub proof fn an_aux_is_heard_through_effects(g: GraphView, b: usize, step: Step)
    requires
        countable(g),
        b < g.buses.len(),
        g.buses[b as int].kind == BusKind::Aux,
        mix_steps(g).contains(step),
        step matches Step::Add { into, .. } && into == Sum::Mix,
    ensures
        !reads_bus(step, b),
{
    the_mix_holds_what_is_due(g, step);
}

/// What is listened to is in front of every mute and fader, and is what is
/// switched to be listened to.
pub proof fn listening_is_in_front_of_the_faders(g: GraphView, step: Step)
    requires
        countable(g),
        mix_steps(g).contains(step),
        step matches Step::Add { into, .. } && into == Sum::Listen,
    ensures
        match step->from {
            Signal::StripPre(i) => i < g.strips.len() && g.strips[i as int].pfl,
            Signal::BusSum(b) => b < g.buses.len() && g.buses[b as int].pfl,
            _ => false,
        },
{
    the_mix_holds_what_is_due(g, step);
}

/// Moving a control changes nothing of what is added to what.
pub proof fn knobs_do_not_route(g: GraphView, moved: GraphView)
    requires
        moved.strips.len() == g.strips.len(),
        forall|i: int|
            0 <= i < g.strips.len() ==> {
                &&& (#[trigger] moved.strips[i]).pfl == g.strips[i].pfl
                &&& moved.strips[i].route == g.strips[i].route
                &&& moved.strips[i].sends.len() == g.strips[i].sends.len()
            },
        forall|i: int, k: int|
            0 <= i < g.strips.len() && 0 <= k < g.strips[i].sends.len() ==> {
                &&& (#[trigger] moved.strips[i].sends[k]).bus == g.strips[i].sends[k].bus
                &&& moved.strips[i].sends[k].pre == g.strips[i].sends[k].pre
            },
        moved.buses.len() == g.buses.len(),
        forall|b: int|
            0 <= b < g.buses.len() ==> (#[trigger] moved.buses[b]).pfl == g.buses[b].pfl
                && moved.buses[b].kind == g.buses[b].kind,
        moved.fx.len() == g.fx.len(),
        forall|f: int|
            0 <= f < g.fx.len() ==> (#[trigger] moved.fx[f]).input == g.fx[f].input,
    ensures
        mix_steps(moved) == mix_steps(g),
{
    lemma_same_strips(g.strips, moved.strips, g.strips.len() as int);
    lemma_same_buses(g.buses, moved.buses, g.buses.len() as int);
    lemma_same_fx(g, moved, g.fx.len() as int);
}

proof fn lemma_same_sends(a: Seq<SendSlot>, b: Seq<SendSlot>, i: usize, n: int)
    requires
        0 <= n <= a.len(),
        forall|k: int|
            0 <= k < n ==> (#[trigger] b[k]).bus == a[k].bus && b[k].pre == a[k].pre,
    ensures
        send_steps(a, i, n) == send_steps(b, i, n),
    decreases n,
{
    if n > 0 {
        lemma_same_sends(a, b, i, n - 1);
        assert(b[n - 1].bus == a[n - 1].bus);
    }
}

proof fn lemma_same_strips(a: Seq<StripNodeView>, b: Seq<StripNodeView>, n: int)
    requires
        0 <= n <= a.len(),
        forall|i: int|
            0 <= i < n ==> {
                &&& (#[trigger] b[i]).pfl == a[i].pfl
                &&& b[i].route == a[i].route
                &&& b[i].sends.len() == a[i].sends.len()
            },
        forall|i: int, k: int|
            0 <= i < n && 0 <= k < a[i].sends.len() ==> {
                &&& (#[trigger] b[i].sends[k]).bus == a[i].sends[k].bus
                &&& b[i].sends[k].pre == a[i].sends[k].pre
            },
    ensures
        strip_stage(a, n) == strip_stage(b, n),
    decreases n,
{
    if n > 0 {
        lemma_same_strips(a, b, n - 1);
        assert(b[n - 1].pfl == a[n - 1].pfl);
        lemma_same_sends(
            a[n - 1].sends,
            b[n - 1].sends,
            (n - 1) as usize,
            a[n - 1].sends.len() as int,
        );
    }
}

proof fn lemma_same_buses(a: Seq<BusNode>, b: Seq<BusNode>, n: int)
    requires
        0 <= n <= a.len(),
        forall|j: int| 0 <= j < n ==> (#[trigger] b[j]).pfl == a[j].pfl && b[j].kind == a[j].kind,
    ensures
        bus_stage(a, n) == bus_stage(b, n),
    decreases n,
{
    if n > 0 {
        lemma_same_buses(a, b, n - 1);
        assert(b[n - 1].pfl == a[n - 1].pfl);
    }
}

proof fn lemma_same_fx(g: GraphView, moved: GraphView, n: int)
    requires
        0 <= n <= g.fx.len(),
        moved.buses.len() == g.buses.len(),
        forall|b: int|
            0 <= b < g.buses.len() ==> (#[trigger] moved.buses[b]).pfl == g.buses[b].pfl
                && moved.buses[b].kind == g.buses[b].kind,
        forall|f: int| 0 <= f < n ==> (#[trigger] moved.fx[f]).input == g.fx[f].input,
    ensures
        fx_stage(g.buses, g.fx, n) == fx_stage(moved.buses, moved.fx, n),
    decreases n,
{
    if n > 0 {
        lemma_same_fx(g, moved, n - 1);
        assert(moved.fx[n - 1].input == g.fx[n - 1].input);
        if let Some(bus) = g.fx[n - 1].input {
            if bus < g.buses.len() {
                assert(moved.buses[bus as int].kind == g.buses[bus as int].kind);
            }
        }
    }
}

/// Whether a step adds to what is listened to.
pub open spec fn to_listen(step: Step) -> bool {
    step matches Step::Add { into, .. } && into == Sum::Listen
}

/// The steps of a mix that are not for listening.
pub open spec fn heard_steps(steps: Seq<Step>) -> Seq<Step> {
    steps.filter(|step: Step| !to_listen(step))
}

/// Whether two graphs lead everything the same way, whatever is switched to be
/// listened to.
pub open spec fn routed_alike(g: GraphView, other: GraphView) -> bool {
    &&& other.strips.len() == g.strips.len()
    &&& forall|i: int|
        0 <= i < g.strips.len() ==> {
            &&& (#[trigger] other.strips[i]).route == g.strips[i].route
            &&& other.strips[i].sends.len() == g.strips[i].sends.len()
        }
    &&& forall|i: int, k: int|
        0 <= i < g.strips.len() && 0 <= k < g.strips[i].sends.len() ==> {
            &&& (#[trigger] other.strips[i].sends[k]).bus == g.strips[i].sends[k].bus
            &&& other.strips[i].sends[k].pre == g.strips[i].sends[k].pre
        }
    &&& other.buses.len() == g.buses.len()
    &&& forall|b: int|
        0 <= b < g.buses.len() ==> (#[trigger] other.buses[b]).kind == g.buses[b].kind
    &&& other.fx.len() == g.fx.len()
    &&& forall|f: int| 0 <= f < g.fx.len() ==> (#[trigger] other.fx[f]).input == g.fx[f].input
}

/// A graph in which nothing is listened to.
pub open spec fn unlistened(g: GraphView) -> GraphView {
    GraphView {
        strips: g.strips.map_values(|s: StripNodeView| StripNodeView { pfl: false, ..s }),
        buses: g.buses.map_values(|b: BusNode| BusNode { pfl: false, ..b }),
        ..g
    }
}

proof fn lemma_heard_joined(a: Seq<Step>, b: Seq<Step>)
    ensures
        heard_steps(a + b) == heard_steps(a) + heard_steps(b),
{
    Seq::filter_distributes_over_add(a, b, |step: Step| !to_listen(step));
}

proof fn lemma_heard_whole(steps: Seq<Step>)
    requires
        forall|i: int| 0 <= i < steps.len() ==> !to_listen(#[trigger] steps[i]),
    ensures
        heard_steps(steps) == steps,
    decreases steps.len(),
{
    reveal(Seq::filter);
    if steps.len() > 0 {
        lemma_heard_whole(steps.drop_last());
        assert(!to_listen(steps[steps.len() - 1]));
        assert(steps.drop_last().push(steps.last()) =~= steps);
    } else {
        assert(heard_steps(steps) =~= steps);
    }
}

proof fn lemma_heard_one(step: Step)
    requires
        to_listen(step),
    ensures
        heard_steps(seq![step]) == Seq::<Step>::empty(),
{
    let none = Seq::<Step>::empty();
    lemma_heard_whole(none);
    assert(seq![step].drop_last() =~= none);
    assert(seq![step].last() == step);
    reveal(Seq::filter);
}

pub(crate) proof fn lemma_sends_are_heard(sends: Seq<SendSlot>, i: usize, n: int)
    requires
        0 <= n,
    ensures
        forall|q: int|
            0 <= q < send_steps(sends, i, n).len() ==> !to_listen(
                #[trigger] send_steps(sends, i, n)[q],
            ),
    decreases n,
{
    if n > 0 {
        lemma_sends_are_heard(sends, i, n - 1);
        let before = send_steps(sends, i, n - 1);
        let steps = send_steps(sends, i, n);
        assert forall|q: int| 0 <= q < steps.len() implies !to_listen(#[trigger] steps[q]) by {
            if q < before.len() {
                assert(steps[q] == before[q]);
            }
        }
    }
}

proof fn lemma_heard_strips(g: GraphView, n: int)
    requires
        0 <= n <= g.strips.len(),
    ensures
        heard_steps(strip_stage(g.strips, n)) == strip_stage(unlistened(g).strips, n),
    decreases n,
{
    if n <= 0 {
        lemma_heard_whole(Seq::empty());
    } else {
        lemma_heard_strips(g, n - 1);
        let i = (n - 1) as usize;
        let strip = g.strips[n - 1];
        let steps = strip_steps(strip, i);
        let quiet = strip_steps(unlistened(g).strips[n - 1], i);
        let listen = seq![Step::Add { from: Signal::StripPre(i), way: Way::Solo, into: Sum::Listen }];
        let first = seq![Step::Strip(i)];
        let sends = send_steps(strip.sends, i, strip.sends.len() as int);
        let rest = sends.push(
            Step::Add { from: Signal::StripPost(i), way: Way::Pan, into: route_sum(strip.route) },
        );
        lemma_sends_are_heard(strip.sends, i, strip.sends.len() as int);
        lemma_heard_whole(first);
        assert forall|q: int| 0 <= q < rest.len() implies !to_listen(#[trigger] rest[q]) by {
            if q < sends.len() {
                assert(rest[q] == sends[q]);
            }
        }
        lemma_heard_whole(rest);
        lemma_heard_one(listen[0]);
        assert(quiet =~= first + rest);
        lemma_heard_joined(first, rest);
        if strip.pfl {
            assert(seq![Step::Strip(i), listen[0]] =~= first + listen);
            assert(steps =~= first + listen + rest);
            lemma_heard_joined(first + listen, rest);
            lemma_heard_joined(first, listen);
            assert(first + Seq::<Step>::empty() =~= first);
        } else {
            assert(steps =~= quiet);
        }
        lemma_heard_joined(strip_stage(g.strips, n - 1), steps);
    }
}

proof fn lemma_heard_buses(g: GraphView, n: int)
    requires
        0 <= n <= g.buses.len(),
    ensures
        heard_steps(bus_stage(g.buses, n)) == bus_stage(unlistened(g).buses, n),
    decreases n,
{
    if n <= 0 {
        lemma_heard_whole(Seq::empty());
    } else {
        lemma_heard_buses(g, n - 1);
        let b = (n - 1) as usize;
        let bus = g.buses[n - 1];
        let steps = bus_steps(bus, b);
        let quiet = bus_steps(unlistened(g).buses[n - 1], b);
        let listen = seq![Step::Add { from: Signal::BusSum(b), way: Way::Fold, into: Sum::Listen }];
        lemma_heard_whole(quiet);
        lemma_heard_one(listen[0]);
        if bus.pfl {
            assert(steps =~= listen + quiet);
            lemma_heard_joined(listen, quiet);
            assert(Seq::<Step>::empty() + quiet =~= quiet);
        } else {
            assert(steps =~= quiet);
        }
        lemma_heard_joined(bus_stage(g.buses, n - 1), steps);
    }
}

pub(crate) proof fn lemma_units_are_heard(g: GraphView, n: int)
    requires
        0 <= n <= g.fx.len(),
    ensures
        forall|q: int|
            0 <= q < fx_stage(g.buses, g.fx, n).len() ==> !to_listen(
                #[trigger] fx_stage(g.buses, g.fx, n)[q],
            ),
    decreases n,
{
    if n > 0 {
        lemma_units_are_heard(g, n - 1);
        let before = fx_stage(g.buses, g.fx, n - 1);
        let steps = fx_stage(g.buses, g.fx, n);
        assert forall|q: int| 0 <= q < steps.len() implies !to_listen(#[trigger] steps[q]) by {
            if q < before.len() {
                assert(steps[q] == before[q]);
            }
        }
    }
}

proof fn lemma_same_feeds(a: Seq<BusNode>, b: Seq<BusNode>, fx: Seq<FxNode>, n: int)
    requires
        0 <= n <= fx.len(),
        a.len() == b.len(),
        forall|j: int| 0 <= j < a.len() ==> (#[trigger] b[j]).kind == a[j].kind,
    ensures
        fx_stage(a, fx, n) == fx_stage(b, fx, n),
    decreases n,
{
    if n > 0 {
        lemma_same_feeds(a, b, fx, n - 1);
        if let Some(bus) = fx[n - 1].input {
            if bus < a.len() {
                assert(b[bus as int].kind == a[bus as int].kind);
            }
        }
    }
}

/// But for what is listened to, a mix is that of the graph in which nothing is.
pub proof fn listening_takes_nothing_from_the_mix(g: GraphView)
    ensures
        heard_steps(mix_steps(g)) == mix_steps(unlistened(g)),
{
    let strips = strip_stage(g.strips, g.strips.len() as int);
    let buses = bus_stage(g.buses, g.buses.len() as int);
    let fx = fx_stage(g.buses, g.fx, g.fx.len() as int);
    lemma_heard_strips(g, g.strips.len() as int);
    lemma_heard_buses(g, g.buses.len() as int);
    lemma_units_are_heard(g, g.fx.len() as int);
    lemma_heard_whole(fx);
    lemma_same_feeds(g.buses, unlistened(g).buses, g.fx, g.fx.len() as int);
    lemma_heard_joined(strips, buses);
    lemma_heard_joined(strips + buses, fx);
}

/// Listening changes the mix in nothing but what is listened to: of two graphs that
/// differ in that alone, the other steps are the same, in the same order.
pub proof fn listening_leaves_the_mix_alone(g: GraphView, other: GraphView)
    requires
        routed_alike(g, other),
    ensures
        heard_steps(mix_steps(g)) == heard_steps(mix_steps(other)),
{
    listening_takes_nothing_from_the_mix(g);
    listening_takes_nothing_from_the_mix(other);
    let a = unlistened(g);
    let b = unlistened(other);
    assert forall|i: int, k: int|
        0 <= i < a.strips.len() && 0 <= k < a.strips[i].sends.len() implies {
        &&& (#[trigger] b.strips[i].sends[k]).bus == a.strips[i].sends[k].bus
        &&& b.strips[i].sends[k].pre == a.strips[i].sends[k].pre
    } by {
        assert(other.strips[i].sends[k].bus == g.strips[i].sends[k].bus);
    }
    knobs_do_not_route(a, b);
}

/// Switching a strip or a bus to be listened to, or back, leaves the mix alone.
pub proof fn a_listen_switch_leaves_the_mix_alone(g: GraphView, slot: FlagSlot, on: bool)
    requires
        flag_fits(g, slot),
        slot is StripPfl || slot is BusPfl,
    ensures
        heard_steps(mix_steps(slot_switched(g, slot, on))) == heard_steps(mix_steps(g)),
{
    listening_leaves_the_mix_alone(g, slot_switched(g, slot, on));
}

/// The signal that a step uses.
pub open spec fn used(step: Step) -> Option<Signal> {
    match step {
        Step::Effect(_, from) => Some(from),
        Step::Add { from, .. } => Some(from),
        _ => None,
    }
}

/// Whether a step works out a signal. Sums need no step of their own.
pub open spec fn works_out(step: Step, signal: Signal) -> bool {
    match signal {
        Signal::StripPre(i) => step == Step::Strip(i),
        Signal::StripPost(i) => step == Step::Strip(i),
        Signal::BusSum(_) => false,
        Signal::BusPost(b) => step == Step::Bus(b),
        Signal::Return(f) => step matches Step::Effect(j, _) && j == f,
    }
}

/// Whether every effects unit is fed by a bus that is there.
pub open spec fn feeds_exist(g: GraphView) -> bool {
    forall|f: int|
        0 <= f < g.fx.len() ==> ((#[trigger] g.fx[f]).input matches Some(bus) ==> bus
            < g.buses.len())
}

/// Whether what the step at `q` uses is a sum, or was worked out in front of it.
pub open spec fn ready(steps: Seq<Step>, q: int) -> bool {
    match used(steps[q]) {
        None => true,
        Some(Signal::BusSum(_)) => true,
        Some(signal) => exists|p: int| 0 <= p < q && works_out(#[trigger] steps[p], signal),
    }
}

spec fn all_ready(steps: Seq<Step>) -> bool {
    forall|q: int| 0 <= q < steps.len() ==> #[trigger] ready(steps, q)
}

proof fn lemma_ready_joined(a: Seq<Step>, b: Seq<Step>)
    requires
        all_ready(a),
        all_ready(b),
    ensures
        all_ready(a + b),
{
    let s = a + b;
    assert forall|q: int| 0 <= q < s.len() implies #[trigger] ready(s, q) by {
        if q < a.len() {
            assert(ready(a, q));
            if used(s[q]) is Some && !(used(s[q])->0 is BusSum) {
                let p = choose|p: int| 0 <= p < q && works_out(#[trigger] a[p], used(a[q])->0);
                assert(works_out(s[p], used(s[q])->0));
            }
        } else {
            let r = q - a.len();
            assert(ready(b, r));
            if used(s[q]) is Some && !(used(s[q])->0 is BusSum) {
                let p = choose|p: int| 0 <= p < r && works_out(#[trigger] b[p], used(b[r])->0);
                assert(works_out(s[p + a.len()], used(s[q])->0));
            }
        }
    }
}

proof fn lemma_strips_ready(g: GraphView, n: int)
    requires
        countable(g),
        0 <= n <= g.strips.len(),
    ensures
        all_ready(strip_stage(g.strips, n)),
    decreases n,
{
    if n > 0 {
        lemma_strips_ready(g, n - 1);
        let i = (n - 1) as usize;
        let last = strip_steps(g.strips[n - 1], i);
        assert forall|q: int| 0 <= q < last.len() implies #[trigger] ready(last, q) by {
            lemma_strip(g.strips[n - 1], i, last[q]);
            assert(last.contains(last[q]));
            assert(last[0] == Step::Strip(i));
            if q > 0 && used(last[q]) is Some {
                assert(works_out(last[0], used(last[q])->0));
            }
        }
        lemma_ready_joined(strip_stage(g.strips, n - 1), last);
    }
}

proof fn lemma_buses_ready(buses: Seq<BusNode>, n: int)
    requires
        0 <= n <= buses.len(),
    ensures
        all_ready(bus_stage(buses, n)),
    decreases n,
{
    if n > 0 {
        lemma_buses_ready(buses, n - 1);
        let b = (n - 1) as usize;
        let last = bus_steps(buses[n - 1], b);
        assert forall|q: int| 0 <= q < last.len() implies #[trigger] ready(last, q) by {
            let at: int = if buses[n - 1].pfl {
                1
            } else {
                0
            };
            if q > at {
                assert(works_out(last[at], used(last[q])->0));
            }
        }
        lemma_ready_joined(bus_stage(buses, n - 1), last);
    }
}

/// Everything that a step uses is a sum, or was worked out in front of it.
pub proof fn signals_are_worked_out_first(g: GraphView, q: int)
    requires
        countable(g),
        feeds_exist(g),
        0 <= q < mix_steps(g).len(),
    ensures
        ready(mix_steps(g), q),
{
    let strips = strip_stage(g.strips, g.strips.len() as int);
    let buses = bus_stage(g.buses, g.buses.len() as int);
    let fx = fx_stage(g.buses, g.fx, g.fx.len() as int);
    let steps = mix_steps(g);
    lemma_strips_ready(g, g.strips.len() as int);
    lemma_buses_ready(g.buses, g.buses.len() as int);
    lemma_ready_joined(strips, buses);
    let front = strips + buses;
    if q < front.len() {
        assert(ready(front, q));
        if used(steps[q]) is Some && !(used(steps[q])->0 is BusSum) {
            let p = choose|p: int| 0 <= p < q && works_out(#[trigger] front[p], used(front[q])->0);
            assert(works_out(steps[p], used(steps[q])->0));
        }
    } else {
        let r = q - front.len();
        assert(fx[r] == steps[q]);
        lemma_units_ready(g, g.fx.len() as int, r);
        match steps[q] {
            Step::Add { .. } => {
                assert(works_out(fx[r - 1], used(fx[r])->0));
                assert(steps[q - 1] == fx[r - 1]);
            },
            Step::Effect(_, Signal::BusPost(b)) => {
                lemma_bus_stage(g, g.buses.len() as int, Step::Bus(b));
                let p = choose|p: int| 0 <= p < buses.len() && buses[p] == Step::Bus(b);
                assert(steps[strips.len() + p] == Step::Bus(b));
                assert(works_out(steps[strips.len() + p], Signal::BusPost(b)));
            },
            _ => {},
        }
    }
}

/// A unit's return stands right behind the step that runs it.
proof fn lemma_units_ready(g: GraphView, n: int, r: int)
    requires
        countable(g),
        feeds_exist(g),
        0 <= n <= g.fx.len(),
        0 <= r < fx_stage(g.buses, g.fx, n).len(),
    ensures
        match fx_stage(g.buses, g.fx, n)[r] {
            Step::Add { from, .. } => r > 0 && works_out(
                fx_stage(g.buses, g.fx, n)[r - 1],
                from,
            ),
            Step::Effect(_, Signal::BusPost(b)) => b < g.buses.len(),
            Step::Effect(_, Signal::BusSum(_)) => true,
            _ => false,
        },
    decreases n,
{
    if n > 0 {
        let before = fx_stage(g.buses, g.fx, n - 1);
        if r < before.len() {
            lemma_units_ready(g, n - 1, r);
        } else {
            assert(g.fx[n - 1].input is Some);
            assert(g.fx[n - 1].input->0 < g.buses.len());
        }
    }
}

/// Every compiled document feeds its effects units from buses that are there.
pub proof fn compiled_feeds_exist(
    s: MixerView,
    block_size: usize,
    inputs: Seq<SlotView>,
    outputs: Seq<SlotView>,
)
    requires
        s.buses.len() <= 0x1_0000,
    ensures
        feeds_exist(graph_of(s, block_size, inputs, outputs)),
{
    let g = graph_of(s, block_size, inputs, outputs);
    assert forall|f: int| 0 <= f < g.fx.len() implies ((#[trigger] g.fx[f]).input matches Some(
        bus,
    ) ==> bus < g.buses.len()) by {
        let at = bus_ids(s.buses).index_of_last(s.fx[f].input);
        if at is Some {
            bus_ids(s.buses).index_of_last_ensures(s.fx[f].input);
        }
    }
}

} // verus!
