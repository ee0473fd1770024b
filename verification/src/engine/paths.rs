//! Where every signal of a frame goes.

use vstd::prelude::*;

use crate::console::bus::BusKind;
use crate::engine::compiled::GraphView;
use crate::engine::mixdown::countable;
use crate::engine::mixdown::due;
use crate::engine::mixdown::mix_steps;
use crate::engine::mixdown::the_mix_holds_what_is_due;
use crate::engine::mixdown::Signal;
use crate::engine::mixdown::Step;
use crate::engine::mixdown::Sum;
use crate::engine::mixdown::Way;

verus! {

/// A strip behind its fader goes, as its pan has it, to the one place that it is
/// routed to: the mix, or the bus at that place.
pub proof fn a_strip_goes_where_it_is_routed(g: GraphView, i: usize, into: Sum)
    requires
        countable(g),
        i < g.strips.len(),
    ensures
        mix_steps(g).contains(Step::Strip(i)),
        mix_steps(g).contains(Step::Add { from: Signal::StripPost(i), way: Way::Pan, into })
            <==> match g.strips[i as int].route {
            None => into == Sum::Mix,
            Some(bus) => into == Sum::Bus(bus as usize),
        },
        !mix_steps(g).contains(Step::Add { from: Signal::StripPre(i), way: Way::Pan, into }),
{
    the_mix_holds_what_is_due(g, Step::Strip(i));
    the_mix_holds_what_is_due(
        g,
        Step::Add { from: Signal::StripPost(i), way: Way::Pan, into },
    );
    the_mix_holds_what_is_due(g, Step::Add { from: Signal::StripPre(i), way: Way::Pan, into });
}

/// A send takes the strip before its fader where it is switched so, and behind it
/// where it is not, and goes to its own bus.
pub proof fn a_send_goes_to_its_bus(g: GraphView, i: usize, k: usize, into: Sum)
    requires
        countable(g),
        i < g.strips.len(),
        k < g.strips[i as int].sends.len(),
    ensures
        ({
            let send = g.strips[i as int].sends[k as int];
            let before = Step::Add { from: Signal::StripPre(i), way: Way::Send(k), into };
            let behind = Step::Add { from: Signal::StripPost(i), way: Way::Send(k), into };
            &&& mix_steps(g).contains(before) <==> send.pre && into == Sum::Bus(send.bus as usize)
            &&& mix_steps(g).contains(behind) <==> !send.pre && into == Sum::Bus(
                send.bus as usize,
            )
        }),
{
    the_mix_holds_what_is_due(
        g,
        Step::Add { from: Signal::StripPre(i), way: Way::Send(k), into },
    );
    the_mix_holds_what_is_due(
        g,
        Step::Add { from: Signal::StripPost(i), way: Way::Send(k), into },
    );
}

/// A group behind its fader goes to the mix, each side to its own. An aux does not.
pub proof fn a_group_goes_to_the_mix(g: GraphView, b: usize, from: Signal, way: Way, into: Sum)
    requires
        countable(g),
        b < g.buses.len(),
        from == Signal::BusPost(b) || from == Signal::BusSum(b),
    ensures
        mix_steps(g).contains(Step::Bus(b)),
        mix_steps(g).contains(Step::Add { from, way, into }) <==> {
            ||| {
                &&& from == Signal::BusPost(b)
                &&& way == Way::Sides
                &&& into == Sum::Mix
                &&& g.buses[b as int].kind == BusKind::Group
            }
            ||| {
                &&& from == Signal::BusSum(b)
                &&& way == Way::Fold
                &&& into == Sum::Listen
                &&& g.buses[b as int].pfl
            }
        },
{
    the_mix_holds_what_is_due(g, Step::Bus(b));
    the_mix_holds_what_is_due(g, Step::Add { from, way, into });
}

/// An effects unit runs on the bus that feeds it: on an aux behind its fader, on a
/// group as it was summed. What it gives goes to the middle of the mix. A unit that
/// nothing feeds does not run and gives nothing.
pub proof fn a_unit_runs_on_its_bus(g: GraphView, f: usize, from: Signal, way: Way, into: Sum)
    requires
        countable(g),
        f < g.fx.len(),
        g.fx[f as int].input matches Some(bus) ==> bus < g.buses.len(),
    ensures
        mix_steps(g).contains(Step::Effect(f, from)) <==> match g.fx[f as int].input {
            None => false,
            Some(bus) => match g.buses[bus as int].kind {
                BusKind::Aux => from == Signal::BusPost(bus as usize),
                BusKind::Group => from == Signal::BusSum(bus as usize),
            },
        },
        mix_steps(g).contains(Step::Add { from: Signal::Return(f), way, into }) <==> {
            &&& g.fx[f as int].input is Some
            &&& way == Way::Center
            &&& into == Sum::Mix
        },
{
    the_mix_holds_what_is_due(g, Step::Effect(f, from));
    the_mix_holds_what_is_due(g, Step::Add { from: Signal::Return(f), way, into });
}

/// A strip on PFL is listened to in front of its mute and fader, and only such a one.
pub proof fn a_strip_on_pfl_is_listened_to(g: GraphView, i: usize)
    requires
        countable(g),
        i < g.strips.len(),
    ensures
        mix_steps(g).contains(
            Step::Add { from: Signal::StripPre(i), way: Way::Solo, into: Sum::Listen },
        ) <==> g.strips[i as int].pfl,
        !mix_steps(g).contains(
            Step::Add { from: Signal::StripPost(i), way: Way::Solo, into: Sum::Listen },
        ),
{
    the_mix_holds_what_is_due(
        g,
        Step::Add { from: Signal::StripPre(i), way: Way::Solo, into: Sum::Listen },
    );
    the_mix_holds_what_is_due(
        g,
        Step::Add { from: Signal::StripPost(i), way: Way::Solo, into: Sum::Listen },
    );
}

/// Nothing that is not on the desk takes part in the mix.
pub proof fn the_mix_is_of_the_desk(g: GraphView, step: Step)
    requires
        countable(g),
        mix_steps(g).contains(step),
    ensures
        match step {
            Step::Strip(i) => i < g.strips.len(),
            Step::Bus(b) => b < g.buses.len(),
            Step::Effect(f, _) => f < g.fx.len(),
            Step::Add { from, .. } => match from {
                Signal::StripPre(i) => i < g.strips.len(),
                Signal::StripPost(i) => i < g.strips.len(),
                Signal::BusSum(b) => b < g.buses.len(),
                Signal::BusPost(b) => b < g.buses.len(),
                Signal::Return(f) => f < g.fx.len(),
            },
        },
{
    the_mix_holds_what_is_due(g, step);
    assert(due(g, step));
}

} // verus!
