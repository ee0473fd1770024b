//! What listening before the faders changes of a compiled desk: which signals are
//! listened to, and nothing else.

use vstd::prelude::*;

use crate::console::bus::BusView;
use crate::console::mix::bus_ids;
use crate::console::mix::strip_ids;
use crate::console::mix::MixerView;
use crate::console::output::OutputSource;
use crate::console::strip::StripView;
use crate::engine::compiled::aux_ids;
use crate::engine::compiled::buses_entered;
use crate::engine::compiled::direct_out;
use crate::engine::compiled::direct_outs;
use crate::engine::compiled::graph_of;
use crate::engine::compiled::is_aux;
use crate::engine::compiled::strip_node;
use crate::engine::compiled::strips_entered;
use crate::engine::compiled::tables_of;
use crate::engine::compiled::Tables;
use crate::engine::compiled::BusNode;
use crate::engine::compiled::GraphView;
use crate::engine::compiled::StripNodeView;
use crate::engine::frame::listens;
use crate::engine::mixdown::bus_stage;
use crate::engine::mixdown::bus_steps;
use crate::engine::mixdown::fx_stage;
use crate::engine::mixdown::heard_steps;
use crate::engine::mixdown::lemma_sends_are_heard;
use crate::engine::mixdown::lemma_units_are_heard;
use crate::engine::mixdown::listening_takes_nothing_from_the_mix;
use crate::engine::mixdown::mix_steps;
use crate::engine::mixdown::route_sum;
use crate::engine::mixdown::send_steps;
use crate::engine::mixdown::strip_stage;
use crate::engine::mixdown::strip_steps;
use crate::engine::mixdown::to_listen;
use crate::engine::mixdown::unlistened;
use crate::engine::mixdown::Signal;
use crate::engine::mixdown::Step;
use crate::engine::mixdown::Sum;
use crate::engine::mixdown::Way;
use crate::engine::slots::SlotView;

verus! {

/// Whether two documents differ in nothing but what is listened to.
pub open spec fn listened_apart(s: MixerView, t: MixerView) -> bool {
    &&& t.strips.len() == s.strips.len()
    &&& forall|i: int|
        0 <= i < s.strips.len() ==> #[trigger] t.strips[i] == (StripView {
            pfl: t.strips[i].pfl,
            ..s.strips[i]
        })
    &&& t.buses.len() == s.buses.len()
    &&& forall|i: int|
        0 <= i < s.buses.len() ==> #[trigger] t.buses[i] == (BusView {
            pfl: t.buses[i].pfl,
            ..s.buses[i]
        })
    &&& t.fx == s.fx
    &&& t.instruments == s.instruments
    &&& t.outputs == s.outputs
    &&& t.master == s.master
}

proof fn lemma_same_ids(s: MixerView, t: MixerView)
    requires
        listened_apart(s, t),
    ensures
        strip_ids(t.strips) == strip_ids(s.strips),
        bus_ids(t.buses) == bus_ids(s.buses),
{
    assert(strip_ids(t.strips) =~= strip_ids(s.strips));
    assert(bus_ids(t.buses) =~= bus_ids(s.buses));
}

proof fn lemma_same_aux(a: Seq<BusView>, b: Seq<BusView>)
    requires
        a.len() == b.len(),
        forall|i: int|
            0 <= i < a.len() ==> (#[trigger] b[i]).id == a[i].id && b[i].kind == a[i].kind,
    ensures
        aux_ids(a) == aux_ids(b),
    decreases a.len(),
{
    reveal(Seq::filter);
    if a.len() > 0 {
        let (c, d) = (a.drop_last(), b.drop_last());
        assert forall|i: int| 0 <= i < c.len() implies (#[trigger] d[i]).id == c[i].id && d[i].kind
            == c[i].kind by {
            assert(b[i].id == a[i].id);
        }
        lemma_same_aux(c, d);
        assert(b[a.len() - 1].id == a[a.len() - 1].id);
        let (p, q) = (c.filter(is_aux()), d.filter(is_aux()));
        assert(bus_ids(p.push(a.last())) =~= bus_ids(p).push(a.last().id));
        assert(bus_ids(q.push(b.last())) =~= bus_ids(q).push(b.last().id));
    } else {
        assert(a =~= b);
    }
}

proof fn lemma_same_outs(s: MixerView, t: MixerView, outputs: Seq<SlotView>, n: int)
    requires
        listened_apart(s, t),
        0 <= n <= s.outputs.len(),
    ensures
        direct_outs(s, outputs, n) == direct_outs(t, outputs, n),
    decreases n,
{
    if n > 0 {
        lemma_same_outs(s, t, outputs, n - 1);
        lemma_same_ids(s, t);
        match s.outputs[n - 1].source {
            OutputSource::Bus { id } => {
                bus_ids(s.buses).index_of_first_ensures(id);
                if let Some(i) = s.bus_at(id) {
                    assert(t.buses[i].kind == s.buses[i].kind);
                }
            },
            _ => {},
        }
        assert(direct_out(s, outputs, n - 1) == direct_out(t, outputs, n - 1));
    }
}

proof fn lemma_same_strips_entered(s: MixerView, t: MixerView, n: int)
    requires
        listened_apart(s, t),
        0 <= n <= s.strips.len(),
    ensures
        strips_entered(s.strips, aux_ids(s.buses), n) == strips_entered(
            t.strips,
            aux_ids(s.buses),
            n,
        ),
    decreases n,
{
    if n > 0 {
        lemma_same_strips_entered(s, t, n - 1);
        assert(t.strips[n - 1].id == s.strips[n - 1].id);
    }
}

proof fn lemma_same_buses_entered(u: Tables, s: MixerView, t: MixerView, n: int)
    requires
        listened_apart(s, t),
        0 <= n <= s.buses.len(),
    ensures
        buses_entered(u, s.buses, n) == buses_entered(u, t.buses, n),
    decreases n,
{
    if n > 0 {
        lemma_same_buses_entered(u, s, t, n - 1);
        assert(t.buses[n - 1].id == s.buses[n - 1].id);
    }
}

/// Documents that differ in nothing but what is listened to compile to graphs that
/// do: the same nodes, direct outs, tables and meters.
pub proof fn listening_is_compiled_apart(
    s: MixerView,
    t: MixerView,
    block_size: usize,
    inputs: Seq<SlotView>,
    outputs: Seq<SlotView>,
)
    requires
        listened_apart(s, t),
    ensures
        unlistened(graph_of(s, block_size, inputs, outputs)) == unlistened(
            graph_of(t, block_size, inputs, outputs),
        ),
{
    let g = unlistened(graph_of(s, block_size, inputs, outputs));
    let h = unlistened(graph_of(t, block_size, inputs, outputs));
    lemma_same_ids(s, t);
    lemma_same_aux(s.buses, t.buses);
    lemma_same_outs(s, t, outputs, s.outputs.len() as int);
    lemma_same_strips_entered(s, t, s.strips.len() as int);
    lemma_same_buses_entered(
        strips_entered(s.strips, aux_ids(s.buses), s.strips.len() as int),
        s,
        t,
        s.buses.len() as int,
    );
    assert(tables_of(s, outputs) == tables_of(t, outputs));
    assert forall|i: int| 0 <= i < s.strips.len() implies #[trigger] g.strips[i]
        == h.strips[i] by {
        let a = strip_node(s, s.strips[i], inputs);
        let b = strip_node(t, t.strips[i], inputs);
        assert(t.strips[i].sends == s.strips[i].sends);
        assert(a.sends =~= b.sends);
    }
    assert(g.strips =~= h.strips);
    assert forall|i: int| 0 <= i < s.buses.len() implies #[trigger] g.buses[i] == h.buses[i] by {
        assert(t.buses[i].kind == s.buses[i].kind);
    }
    assert(g.buses =~= h.buses);
    assert(g.fx =~= h.fx);
}

/// Listening leaves the mix of a document alone: but for what is added to the
/// listening sum, two documents that differ in nothing else are mixed by the same
/// steps.
pub proof fn listening_leaves_the_document_alone(
    s: MixerView,
    t: MixerView,
    block_size: usize,
    inputs: Seq<SlotView>,
    outputs: Seq<SlotView>,
)
    requires
        listened_apart(s, t),
    ensures
        heard_steps(mix_steps(graph_of(s, block_size, inputs, outputs))) == heard_steps(
            mix_steps(graph_of(t, block_size, inputs, outputs)),
        ),
{
    listening_is_compiled_apart(s, t, block_size, inputs, outputs);
    listening_takes_nothing_from_the_mix(graph_of(s, block_size, inputs, outputs));
    listening_takes_nothing_from_the_mix(graph_of(t, block_size, inputs, outputs));
}

/// Something that works off the steps of a mix, frame by frame: how a step changes
/// its state, how the end of a frame does, and what of the state is not for listening
/// - the sums of the mix and of the buses, the meters and what is recorded.
#[verifier::reject_recursive_types(S)]
#[verifier::reject_recursive_types(R)]
pub ghost struct Desk<S, R> {
    pub work: spec_fn(S, Step) -> S,
    pub close: spec_fn(S, int) -> S,
    pub heard: spec_fn(S) -> R,
}

impl<S, R> Desk<S, R> {
    /// Whether what is not for listening depends on nothing that is: a step into the
    /// listening sum leaves it alone, and every other step and the end of a frame make
    /// the same of it whatever was listened to.
    pub open spec fn keeps_listening_apart(self) -> bool {
        &&& forall|s: S, step: Step|
            to_listen(step) ==> (self.heard)(#[trigger] (self.work)(s, step)) == (self.heard)(s)
        &&& forall|s: S, t: S, step: Step|
            !to_listen(step) && (self.heard)(s) == (self.heard)(t) ==> (self.heard)(
                #[trigger] (self.work)(s, step),
            ) == (self.heard)(#[trigger] (self.work)(t, step))
        &&& forall|s: S, t: S, frame: int|
            (self.heard)(s) == (self.heard)(t) ==> (self.heard)(
                #[trigger] (self.close)(s, frame),
            ) == (self.heard)(#[trigger] (self.close)(t, frame))
    }

    /// The state after these steps.
    pub open spec fn worked(self, s: S, steps: Seq<Step>) -> S
        decreases steps.len(),
    {
        if steps.len() == 0 {
            s
        } else {
            (self.work)(self.worked(s, steps.drop_last()), steps.last())
        }
    }

    /// The state after the first `n` frames of a mix.
    pub open spec fn processed(self, s: S, steps: Seq<Step>, n: int) -> S
        decreases n,
    {
        if n <= 0 {
            s
        } else {
            (self.close)(self.worked(self.processed(s, steps, n - 1), steps), n - 1)
        }
    }
}

proof fn lemma_worked_apart<S, R>(desk: Desk<S, R>, s: S, t: S, steps: Seq<Step>)
    requires
        desk.keeps_listening_apart(),
        (desk.heard)(s) == (desk.heard)(t),
    ensures
        (desk.heard)(desk.worked(s, steps)) == (desk.heard)(desk.worked(t, heard_steps(steps))),
    decreases steps.len(),
{
    reveal(Seq::filter);
    if steps.len() > 0 {
        let rest = steps.drop_last();
        lemma_worked_apart(desk, s, t, rest);
        if !to_listen(steps.last()) {
            let kept = heard_steps(rest).push(steps.last());
            assert(heard_steps(steps) == kept);
            assert(kept.drop_last() =~= heard_steps(rest));
            assert(kept.last() == steps.last());
        } else {
            assert(heard_steps(steps) == heard_steps(rest));
        }
    } else {
        assert(heard_steps(steps) =~= steps);
    }
}

proof fn lemma_processed_apart<S, R>(
    desk: Desk<S, R>,
    s: S,
    t: S,
    steps: Seq<Step>,
    others: Seq<Step>,
    n: int,
)
    requires
        desk.keeps_listening_apart(),
        (desk.heard)(s) == (desk.heard)(t),
        heard_steps(steps) == heard_steps(others),
    ensures
        (desk.heard)(desk.processed(s, steps, n)) == (desk.heard)(desk.processed(t, others, n)),
    decreases n,
{
    if n > 0 {
        lemma_processed_apart(desk, s, t, steps, others, n - 1);
        let a = desk.processed(s, steps, n - 1);
        let b = desk.processed(t, others, n - 1);
        lemma_worked_apart(desk, a, b, steps);
        lemma_worked_apart(desk, b, b, others);
        let c = desk.worked(a, steps);
        let d = desk.worked(b, others);
        assert((desk.heard)(c) == (desk.heard)(d));
        assert((desk.heard)((desk.close)(c, n - 1)) == (desk.heard)((desk.close)(d, n - 1)));
    }
}

/// Listening changes neither meters nor recordings: two documents that differ in
/// nothing but what is listened to, worked off by the same desk from states that agree
/// in all but the listening, agree in all but the listening after any number of frames.
pub proof fn listening_changes_neither_meters_nor_recordings<S, R>(
    desk: Desk<S, R>,
    a: S,
    b: S,
    s: MixerView,
    t: MixerView,
    block_size: usize,
    inputs: Seq<SlotView>,
    outputs: Seq<SlotView>,
    frames: int,
)
    requires
        desk.keeps_listening_apart(),
        (desk.heard)(a) == (desk.heard)(b),
        listened_apart(s, t),
    ensures
        ({
            let steps = mix_steps(graph_of(s, block_size, inputs, outputs));
            let others = mix_steps(graph_of(t, block_size, inputs, outputs));
            (desk.heard)(desk.processed(a, steps, frames)) == (desk.heard)(
                desk.processed(b, others, frames),
            )
        }),
{
    listening_leaves_the_document_alone(s, t, block_size, inputs, outputs);
    lemma_processed_apart(
        desk,
        a,
        b,
        mix_steps(graph_of(s, block_size, inputs, outputs)),
        mix_steps(graph_of(t, block_size, inputs, outputs)),
        frames,
    );
}

/// The arithmetic of a mix, whatever it is: how strips, buses and effects units come by
/// their signals, how a signal is scaled on its way to a sum, and how values are added.
/// `D` is what filters, faders and effects keep from frame to frame.
#[verifier::reject_recursive_types(D)]
#[verifier::reject_recursive_types(V)]
pub ghost struct Arithmetic<D, V> {
    /// A strip in front of and behind its fader.
    pub strip: spec_fn(D, usize) -> (D, V, V),
    /// A bus behind its fader, from its sum.
    pub bus: spec_fn(D, usize, V) -> (D, V),
    /// What an effects unit makes of a signal.
    pub effect: spec_fn(D, usize, V) -> (D, V),
    /// A signal on its way to a bus or to the mix.
    pub scaled: spec_fn(D, Way, Signal, V) -> (D, V),
    /// A signal on its way to the listening sum.
    pub plain: spec_fn(Way, V) -> V,
    pub plus: spec_fn(V, V) -> V,
    /// The mix behind the master fader, in a frame.
    pub master: spec_fn(D, int, V) -> (D, V),
    pub silence: V,
}

/// Where a mix stands.
#[verifier::ext_equal]
pub ghost struct Mixing<D, V> {
    pub dsp: D,
    pub signals: Map<Signal, V>,
    pub sums: Map<Sum, V>,
    /// What was metered and recorded of the strips: each with its number, in front of
    /// its mute and fader.
    pub strips: Seq<(usize, V)>,
    /// What was metered and recorded of the mix, frame by frame.
    pub mixes: Seq<V>,
}

impl<D, V> Mixing<D, V> {
    /// The value of a signal.
    pub open spec fn value(self, signal: Signal) -> V {
        match signal {
            Signal::BusSum(b) => self.sums[Sum::Bus(b)],
            _ => self.signals[signal],
        }
    }

    /// All of it but the listening sum.
    pub open spec fn but_listening(self) -> Mixing<D, V> {
        Mixing { sums: self.sums.remove(Sum::Listen), ..self }
    }
}

impl<D, V> Arithmetic<D, V> {
    /// One step of the mix.
    pub open spec fn step(self, m: Mixing<D, V>, step: Step) -> Mixing<D, V> {
        match step {
            Step::Strip(i) => {
                let (dsp, pre, post) = (self.strip)(m.dsp, i);
                let signals = m.signals.insert(Signal::StripPre(i), pre).insert(
                    Signal::StripPost(i),
                    post,
                );
                Mixing { dsp, signals, strips: m.strips.push((i, pre)), ..m }
            },
            Step::Bus(b) => {
                let (dsp, post) = (self.bus)(m.dsp, b, m.sums[Sum::Bus(b)]);
                Mixing { dsp, signals: m.signals.insert(Signal::BusPost(b), post), ..m }
            },
            Step::Effect(f, from) => {
                let (dsp, made) = (self.effect)(m.dsp, f, m.value(from));
                Mixing { dsp, signals: m.signals.insert(Signal::Return(f), made), ..m }
            },
            Step::Add { from, way, into } => if into == Sum::Listen {
                let sum = (self.plus)(m.sums[into], (self.plain)(way, m.value(from)));
                Mixing { sums: m.sums.insert(into, sum), ..m }
            } else {
                let (dsp, value) = (self.scaled)(m.dsp, way, from, m.value(from));
                let sum = (self.plus)(m.sums[into], value);
                Mixing { dsp, sums: m.sums.insert(into, sum), ..m }
            },
        }
    }

    /// The end of a frame: the mix is metered and recorded behind the master fader, and
    /// the sums start anew.
    pub open spec fn end_of_frame(self, m: Mixing<D, V>, frame: int) -> Mixing<D, V> {
        let (dsp, mix) = (self.master)(m.dsp, frame, m.sums[Sum::Mix]);
        Mixing {
            dsp,
            sums: Map::new(|sum: Sum| true, |sum: Sum| self.silence),
            mixes: m.mixes.push(mix),
            ..m
        }
    }

    /// The desk that mixes with this arithmetic.
    pub open spec fn desk(self) -> Desk<Mixing<D, V>, Mixing<D, V>> {
        Desk {
            work: |m: Mixing<D, V>, step: Step| self.step(m, step),
            close: |m: Mixing<D, V>, frame: int| self.end_of_frame(m, frame),
            heard: |m: Mixing<D, V>| m.but_listening(),
        }
    }
}

proof fn lemma_read_alike<D, V>(m: Mixing<D, V>, n: Mixing<D, V>)
    requires
        m.but_listening() == n.but_listening(),
    ensures
        m.dsp == n.dsp,
        m.signals == n.signals,
        m.strips == n.strips,
        m.mixes == n.mixes,
        forall|sum: Sum| sum != Sum::Listen ==> #[trigger] m.sums[sum] == n.sums[sum],
        forall|signal: Signal| #[trigger] m.value(signal) == n.value(signal),
{
    let (a, b) = (m.but_listening(), n.but_listening());
    assert(m.dsp == a.dsp && n.dsp == b.dsp);
    assert forall|sum: Sum| sum != Sum::Listen implies #[trigger] m.sums[sum] == n.sums[sum] by {
        assert(a.sums[sum] == m.sums[sum]);
        assert(b.sums[sum] == n.sums[sum]);
    }
    assert forall|signal: Signal| #[trigger] m.value(signal) == n.value(signal) by {
        if let Signal::BusSum(b) = signal {
            assert(m.sums[Sum::Bus(b)] == n.sums[Sum::Bus(b)]);
        }
    }
}

/// Whatever the arithmetic, a desk that mixes with it keeps the listening apart.
pub proof fn every_mix_keeps_listening_apart<D, V>(arithmetic: Arithmetic<D, V>)
    ensures
        arithmetic.desk().keeps_listening_apart(),
{
    let desk = arithmetic.desk();
    assert forall|m: Mixing<D, V>, step: Step| to_listen(step) implies (desk.heard)(
        #[trigger] (desk.work)(m, step),
    ) == (desk.heard)(m) by {
        assert(arithmetic.step(m, step).but_listening() =~= m.but_listening());
    }
    assert forall|m: Mixing<D, V>, n: Mixing<D, V>, step: Step|
        !to_listen(step) && (desk.heard)(m) == (desk.heard)(n) implies (desk.heard)(
        #[trigger] (desk.work)(m, step),
    ) == (desk.heard)(#[trigger] (desk.work)(n, step)) by {
        lemma_read_alike(m, n);
        let (a, b) = (arithmetic.step(m, step), arithmetic.step(n, step));
        match step {
            Step::Add { from, way, into } => {
                let kept = m.but_listening().sums;
                assert(m.value(from) == n.value(from));
                assert(m.sums[into] == n.sums[into]);
                assert(a.but_listening().sums =~= kept.insert(into, a.sums[into]));
                assert(b.but_listening().sums =~= kept.insert(into, b.sums[into]));
            },
            Step::Effect(_, from) => {
                assert(m.value(from) == n.value(from));
            },
            Step::Bus(j) => {
                assert(m.sums[Sum::Bus(j)] == n.sums[Sum::Bus(j)]);
            },
            Step::Strip(_) => {},
        }
        assert(a.but_listening() =~= b.but_listening());
    }
    assert forall|m: Mixing<D, V>, n: Mixing<D, V>, frame: int|
        (desk.heard)(m) == (desk.heard)(n) implies (desk.heard)(
        #[trigger] (desk.close)(m, frame),
    ) == (desk.heard)(#[trigger] (desk.close)(n, frame)) by {
        lemma_read_alike(m, n);
        assert(m.sums[Sum::Mix] == n.sums[Sum::Mix]);
    }
}

/// Whatever the arithmetic, what is metered and recorded of the strips and of the mix,
/// over any number of frames, is the same of two documents that differ in nothing but
/// what is listened to.
pub proof fn the_same_is_metered_and_recorded<D, V>(
    arithmetic: Arithmetic<D, V>,
    start: Mixing<D, V>,
    s: MixerView,
    t: MixerView,
    block_size: usize,
    inputs: Seq<SlotView>,
    outputs: Seq<SlotView>,
    frames: int,
)
    requires
        listened_apart(s, t),
    ensures
        ({
            let desk = arithmetic.desk();
            let steps = mix_steps(graph_of(s, block_size, inputs, outputs));
            let others = mix_steps(graph_of(t, block_size, inputs, outputs));
            let a = desk.processed(start, steps, frames);
            let b = desk.processed(start, others, frames);
            &&& a.strips == b.strips
            &&& a.mixes == b.mixes
            &&& a.dsp == b.dsp
        }),
{
    let desk = arithmetic.desk();
    every_mix_keeps_listening_apart(arithmetic);
    listening_changes_neither_meters_nor_recordings(
        desk,
        start,
        start,
        s,
        t,
        block_size,
        inputs,
        outputs,
        frames,
    );
    let steps = mix_steps(graph_of(s, block_size, inputs, outputs));
    let others = mix_steps(graph_of(t, block_size, inputs, outputs));
    lemma_read_alike(
        desk.processed(start, steps, frames),
        desk.processed(start, others, frames),
    );
}

/// The steps of a mix that are for listening.
pub open spec fn listen_steps(steps: Seq<Step>) -> Seq<Step> {
    steps.filter(|step: Step| to_listen(step))
}

/// What is listened to of the first `n` strips: each in front of its mute and fader,
/// as it is.
pub open spec fn strips_listened(strips: Seq<StripNodeView>, n: int) -> Seq<Step>
    decreases n,
{
    if n <= 0 {
        Seq::empty()
    } else if strips[n - 1].pfl {
        strips_listened(strips, n - 1).push(
            Step::Add {
                from: Signal::StripPre((n - 1) as usize),
                way: Way::Solo,
                into: Sum::Listen,
            },
        )
    } else {
        strips_listened(strips, n - 1)
    }
}

/// What is listened to of the first `n` buses: the mean of both sides of each, as it
/// was summed.
pub open spec fn buses_listened(buses: Seq<BusNode>, n: int) -> Seq<Step>
    decreases n,
{
    if n <= 0 {
        Seq::empty()
    } else if buses[n - 1].pfl {
        buses_listened(buses, n - 1).push(
            Step::Add { from: Signal::BusSum((n - 1) as usize), way: Way::Fold, into: Sum::Listen },
        )
    } else {
        buses_listened(buses, n - 1)
    }
}

proof fn lemma_listen_joined(a: Seq<Step>, b: Seq<Step>)
    ensures
        listen_steps(a + b) == listen_steps(a) + listen_steps(b),
{
    Seq::filter_distributes_over_add(a, b, |step: Step| to_listen(step));
}

proof fn lemma_listen_none(steps: Seq<Step>)
    requires
        forall|i: int| 0 <= i < steps.len() ==> !to_listen(#[trigger] steps[i]),
    ensures
        listen_steps(steps) == Seq::<Step>::empty(),
    decreases steps.len(),
{
    reveal(Seq::filter);
    if steps.len() > 0 {
        lemma_listen_none(steps.drop_last());
        assert(!to_listen(steps[steps.len() - 1]));
    }
}

proof fn lemma_listen_one(step: Step)
    requires
        to_listen(step),
    ensures
        listen_steps(seq![step]) == seq![step],
{
    let none = Seq::<Step>::empty();
    lemma_listen_none(none);
    assert(seq![step].drop_last() =~= none);
    assert(seq![step].last() == step);
    reveal(Seq::filter);
    assert(none.push(step) =~= seq![step]);
}

proof fn lemma_listen_strips(strips: Seq<StripNodeView>, n: int)
    requires
        0 <= n <= strips.len(),
    ensures
        listen_steps(strip_stage(strips, n)) == strips_listened(strips, n),
    decreases n,
{
    if n <= 0 {
        lemma_listen_none(Seq::empty());
    } else {
        lemma_listen_strips(strips, n - 1);
        let i = (n - 1) as usize;
        let strip = strips[n - 1];
        let steps = strip_steps(strip, i);
        let listen = seq![Step::Add { from: Signal::StripPre(i), way: Way::Solo, into: Sum::Listen }];
        let first = seq![Step::Strip(i)];
        let sends = send_steps(strip.sends, i, strip.sends.len() as int);
        let rest = sends.push(
            Step::Add { from: Signal::StripPost(i), way: Way::Pan, into: route_sum(strip.route) },
        );
        lemma_sends_are_heard(strip.sends, i, strip.sends.len() as int);
        assert forall|q: int| 0 <= q < rest.len() implies !to_listen(#[trigger] rest[q]) by {
            if q < sends.len() {
                assert(rest[q] == sends[q]);
            }
        }
        lemma_listen_none(first);
        lemma_listen_none(rest);
        lemma_listen_one(listen[0]);
        let before = strips_listened(strips, n - 1);
        if strip.pfl {
            assert(seq![Step::Strip(i), listen[0]] =~= first + listen);
            assert(steps =~= first + listen + rest);
            lemma_listen_joined(first + listen, rest);
            lemma_listen_joined(first, listen);
            assert(listen_steps(steps) =~= listen);
            assert(before + listen =~= before.push(listen[0]));
        } else {
            assert(steps =~= first + rest);
            lemma_listen_joined(first, rest);
            assert(listen_steps(steps) =~= Seq::empty());
            assert(before + Seq::<Step>::empty() =~= before);
        }
        lemma_listen_joined(strip_stage(strips, n - 1), steps);
    }
}

proof fn lemma_listen_buses(buses: Seq<BusNode>, n: int)
    requires
        0 <= n <= buses.len(),
    ensures
        listen_steps(bus_stage(buses, n)) == buses_listened(buses, n),
    decreases n,
{
    if n <= 0 {
        lemma_listen_none(Seq::empty());
    } else {
        lemma_listen_buses(buses, n - 1);
        let b = (n - 1) as usize;
        let bus = buses[n - 1];
        let steps = bus_steps(bus, b);
        let quiet = bus_steps(BusNode { pfl: false, ..bus }, b);
        let listen = seq![Step::Add { from: Signal::BusSum(b), way: Way::Fold, into: Sum::Listen }];
        lemma_listen_none(quiet);
        lemma_listen_one(listen[0]);
        let before = buses_listened(buses, n - 1);
        if bus.pfl {
            assert(steps =~= listen + quiet);
            lemma_listen_joined(listen, quiet);
            assert(listen_steps(steps) =~= listen);
            assert(before + listen =~= before.push(listen[0]));
        } else {
            assert(steps =~= quiet);
            assert(before + Seq::<Step>::empty() =~= before);
        }
        lemma_listen_joined(bus_stage(buses, n - 1), steps);
    }
}

/// What is listened to is, in desk order, every strip that is switched to be, in front
/// of its mute and fader, and then every bus that is, as it was summed; and nothing
/// exactly where the monitor carries the mix.
pub proof fn what_is_listened_to(g: GraphView)
    ensures
        listen_steps(mix_steps(g)) == strips_listened(g.strips, g.strips.len() as int)
            + buses_listened(g.buses, g.buses.len() as int),
        listen_steps(mix_steps(g)).len() > 0 <==> listens(g),
{
    let strips = strip_stage(g.strips, g.strips.len() as int);
    let buses = bus_stage(g.buses, g.buses.len() as int);
    let fx = fx_stage(g.buses, g.fx, g.fx.len() as int);
    lemma_listen_strips(g.strips, g.strips.len() as int);
    lemma_listen_buses(g.buses, g.buses.len() as int);
    lemma_units_are_heard(g, g.fx.len() as int);
    lemma_listen_none(fx);
    lemma_listen_joined(strips, buses);
    lemma_listen_joined(strips + buses, fx);
    assert(listen_steps(mix_steps(g)) =~= strips_listened(g.strips, g.strips.len() as int)
        + buses_listened(g.buses, g.buses.len() as int));
    lemma_some_strip(g.strips, g.strips.len() as int);
    lemma_some_bus(g.buses, g.buses.len() as int);
}

proof fn lemma_some_strip(strips: Seq<StripNodeView>, n: int)
    requires
        0 <= n <= strips.len(),
    ensures
        strips_listened(strips, n).len() > 0 <==> exists|i: int|
            0 <= i < n && (#[trigger] strips[i]).pfl,
    decreases n,
{
    if n > 0 {
        lemma_some_strip(strips, n - 1);
        if strips[n - 1].pfl {
            assert(0 <= n - 1 < n && strips[n - 1].pfl);
        }
    }
}

proof fn lemma_some_bus(buses: Seq<BusNode>, n: int)
    requires
        0 <= n <= buses.len(),
    ensures
        buses_listened(buses, n).len() > 0 <==> exists|i: int|
            0 <= i < n && (#[trigger] buses[i]).pfl,
    decreases n,
{
    if n > 0 {
        lemma_some_bus(buses, n - 1);
        if buses[n - 1].pfl {
            assert(0 <= n - 1 < n && buses[n - 1].pfl);
        }
    }
}

} // verus!
