//! Which node of a document feeds which.

use vstd::prelude::*;

use crate::console::bus::BusKind;
use crate::console::graph::bus_edge;
use crate::console::graph::bus_edges;
use crate::console::graph::fx_edge;
use crate::console::graph::fx_edges;
use crate::console::graph::graph_edges;
use crate::console::graph::graph_nodes;
use crate::console::graph::listed_ids;
use crate::console::graph::main_edge;
use crate::console::graph::send_edge;
use crate::console::graph::send_edges;
use crate::console::graph::strip_edges;
use crate::console::graph::Edge;
use crate::console::graph::EdgeKind;
use crate::console::graph::NodeId;
use crate::console::graph::NodeKind;
use crate::console::id::BusId;
use crate::console::mix::bus_ids;
use crate::console::mix::MixerView;
use crate::console::readback::bus_is;
use crate::console::readback::fx_is;
use crate::console::readback::lemma_bus_is;
use crate::console::readback::lemma_fx_is;
use crate::console::readback::lemma_strip_is;
use crate::console::readback::strip_is;
use crate::console::strip::RouteTarget;
use crate::seqs::lemma_absent;
use crate::seqs::lemma_first;

verus! {

/// The nodes of a document are its strips, then its buses, then its effects units,
/// each in order, and the master last.
pub proof fn the_nodes_stand_in_desk_order(s: MixerView, i: int)
    ensures
        graph_nodes(s).len() == s.strips.len() + s.buses.len() + s.fx.len() + 1,
        0 <= i < s.strips.len() ==> graph_nodes(s)[i] == NodeKind::Strip(s.strips[i].id),
        0 <= i < s.buses.len() ==> graph_nodes(s)[s.strips.len() + i] == NodeKind::Bus(
            s.buses[i].id,
        ),
        0 <= i < s.fx.len() ==> graph_nodes(s)[s.strips.len() + s.buses.len() + i] == NodeKind::Fx(
            s.fx[i].id,
        ),
        graph_nodes(s).last() == NodeKind::Master,
{
}

/// Sound goes from strips to groups to aux buses to effects units to the master. A
/// bus that is not listed counts as a group.
pub proof fn the_stages_of_a_desk(node: NodeKind, buses: Seq<(BusId, BusKind)>, b: int)
    ensures
        node is Strip ==> node.depth(buses) == 1,
        node is Fx ==> node.depth(buses) == 4,
        node is Master ==> node.depth(buses) == 5,
        node matches NodeKind::Bus(id) ==> 0 <= b < buses.len() && buses[b].0 == id && (forall|
            j: int,
        | 0 <= j < b ==> (#[trigger] buses[j]).0 != id) ==> node.depth(buses) == if buses[b].1
            == BusKind::Aux {
            3int
        } else {
            2int
        },
        node matches NodeKind::Bus(id) ==> (forall|j: int|
            0 <= j < buses.len() ==> (#[trigger] buses[j]).0 != id) ==> node.depth(buses) == 2,
{
    if let NodeKind::Bus(id) = node {
        let ids = listed_ids(buses);
        if 0 <= b < buses.len() && buses[b].0 == id && (forall|j: int|
            0 <= j < b ==> (#[trigger] buses[j]).0 != id) {
            lemma_first(ids, id, b);
        }
        if forall|j: int| 0 <= j < buses.len() ==> (#[trigger] buses[j]).0 != id {
            lemma_absent(ids, id);
        }
    }
}

/// No two strips, no two buses and no two units share a number, and there are few
/// enough nodes to number.
pub open spec fn numbered_apart(s: MixerView) -> bool {
    &&& s.strips.len() + s.buses.len() + s.fx.len() < 0x1_0000_0000
    &&& forall|i: int, j: int|
        0 <= i < j < s.strips.len() ==> (#[trigger] s.strips[i]).id != (#[trigger] s.strips[j]).id
    &&& forall|i: int, j: int|
        0 <= i < j < s.buses.len() ==> (#[trigger] s.buses[i]).id != (#[trigger] s.buses[j]).id
    &&& forall|i: int, j: int|
        0 <= i < j < s.fx.len() ==> (#[trigger] s.fx[i]).id != (#[trigger] s.fx[j]).id
}

/// The edge between two places among the nodes.
pub open spec fn between(from: int, to: int, kind: EdgeKind) -> Edge {
    Edge { from: NodeId(from as u32), to: NodeId(to as u32), kind }
}

/// The place of the master among the nodes.
pub open spec fn last_place(s: MixerView) -> int {
    (s.strips.len() + s.buses.len() + s.fx.len()) as int
}

proof fn lemma_strip_has(s: MixerView, n: int, i: int, e: Edge)
    requires
        0 <= i < n <= s.strips.len(),
        main_edge(s, i).contains(e) || send_edges(s, i, s.strips[i].sends.len() as int).contains(
            e,
        ),
    ensures
        strip_edges(s, n).contains(e),
    decreases n,
{
    let before = strip_edges(s, n - 1);
    let main = main_edge(s, n - 1);
    let sends = send_edges(s, n - 1, s.strips[n - 1].sends.len() as int);
    lemma_either(before + main, sends, e);
    lemma_either(before, main, e);
    if i < n - 1 {
        lemma_strip_has(s, n - 1, i, e);
    }
}

proof fn lemma_either(a: Seq<Edge>, b: Seq<Edge>, e: Edge)
    ensures
        (a + b).contains(e) <==> a.contains(e) || b.contains(e),
{
    if a.contains(e) {
        let k = choose|k: int| 0 <= k < a.len() && a[k] == e;
        assert((a + b)[k] == e);
    }
    if b.contains(e) {
        let k = choose|k: int| 0 <= k < b.len() && b[k] == e;
        assert((a + b)[a.len() + k] == e);
    }
}

proof fn lemma_send_has(s: MixerView, i: int, n: int, k: int, e: Edge)
    requires
        0 <= k < n,
        send_edge(s, i, s.strips[i].sends[k]).contains(e),
    ensures
        send_edges(s, i, n).contains(e),
    decreases n,
{
    lemma_either(send_edges(s, i, n - 1), send_edge(s, i, s.strips[i].sends[n - 1]), e);
    if k < n - 1 {
        lemma_send_has(s, i, n - 1, k, e);
    }
}

proof fn lemma_bus_has(s: MixerView, n: int, b: int, e: Edge)
    requires
        0 <= b < n <= s.buses.len(),
        bus_edge(s, b).contains(e),
    ensures
        bus_edges(s, n).contains(e),
    decreases n,
{
    lemma_either(bus_edges(s, n - 1), bus_edge(s, n - 1), e);
    if b < n - 1 {
        lemma_bus_has(s, n - 1, b, e);
    }
}

proof fn lemma_fx_has(s: MixerView, n: int, f: int, e: Edge)
    requires
        0 <= f < n <= s.fx.len(),
        fx_edge(s, f).contains(e),
    ensures
        fx_edges(s, n).contains(e),
    decreases n,
{
    lemma_either(fx_edges(s, n - 1), fx_edge(s, n - 1), e);
    if f < n - 1 {
        lemma_fx_has(s, n - 1, f, e);
    }
}

proof fn lemma_has(s: MixerView, e: Edge)
    ensures
        graph_edges(s).contains(e) <==> {
            ||| strip_edges(s, s.strips.len() as int).contains(e)
            ||| bus_edges(s, s.buses.len() as int).contains(e)
            ||| fx_edges(s, s.fx.len() as int).contains(e)
        },
{
    lemma_either(
        strip_edges(s, s.strips.len() as int),
        bus_edges(s, s.buses.len() as int),
        e,
    );
    lemma_either(
        strip_edges(s, s.strips.len() as int) + bus_edges(s, s.buses.len() as int),
        fx_edges(s, s.fx.len() as int),
        e,
    );
}

/// A strip feeds the node that it is routed to: the master, or the bus of that name.
pub proof fn a_strip_feeds_its_route(s: MixerView, i: int, b: int)
    requires
        numbered_apart(s),
        0 <= i < s.strips.len(),
    ensures
        s.strips[i].route_to == RouteTarget::Master ==> graph_edges(s).contains(
            between(i, last_place(s), EdgeKind::Main),
        ),
        s.strips[i].route_to matches RouteTarget::Bus { id } ==> 0 <= b < s.buses.len()
            && s.buses[b].id == id ==> graph_edges(s).contains(
            between(i, s.strips.len() + b, EdgeKind::Main),
        ),
{
    assert(strip_is(s, s.strips[i].id, i));
    lemma_strip_is(s, s.strips[i].id, i);
    let edge = match s.strips[i].route_to {
        RouteTarget::Master => between(i, last_place(s), EdgeKind::Main),
        RouteTarget::Bus { id } => between(i, s.strips.len() + b, EdgeKind::Main),
    };
    if let RouteTarget::Bus { id } = s.strips[i].route_to {
        if 0 <= b < s.buses.len() && s.buses[b].id == id {
            assert(bus_is(s, id, b));
            lemma_bus_is(s, id, b);
        }
    }
    lemma_has(s, edge);
    if main_edge(s, i).len() > 0 && main_edge(s, i)[0] == edge {
        assert(main_edge(s, i).contains(edge));
        lemma_strip_has(s, s.strips.len() as int, i, edge);
    }
}

/// A send feeds the bus that it names, with its tap.
pub proof fn a_send_feeds_its_bus(s: MixerView, i: int, k: int, b: int)
    requires
        numbered_apart(s),
        0 <= i < s.strips.len(),
        0 <= k < s.strips[i].sends.len(),
        0 <= b < s.buses.len(),
        s.buses[b].id == s.strips[i].sends[k].dest,
    ensures
        graph_edges(s).contains(
            between(
                i,
                s.strips.len() + b,
                EdgeKind::Send { tap: s.strips[i].sends[k].tap },
            ),
        ),
{
    let edge = between(
        i,
        s.strips.len() + b,
        EdgeKind::Send { tap: s.strips[i].sends[k].tap },
    );
    assert(strip_is(s, s.strips[i].id, i));
    lemma_strip_is(s, s.strips[i].id, i);
    assert(bus_is(s, s.buses[b].id, b));
    lemma_bus_is(s, s.buses[b].id, b);
    assert(send_edge(s, i, s.strips[i].sends[k])[0] == edge);
    lemma_send_has(s, i, s.strips[i].sends.len() as int, k, edge);
    lemma_strip_has(s, s.strips.len() as int, i, edge);
    lemma_has(s, edge);
}

/// A group feeds the master.
pub proof fn a_group_feeds_the_master(s: MixerView, b: int)
    requires
        numbered_apart(s),
        0 <= b < s.buses.len(),
        s.buses[b].kind == BusKind::Group,
    ensures
        graph_edges(s).contains(between(s.strips.len() + b, last_place(s), EdgeKind::Main)),
{
    let edge = between(s.strips.len() + b, last_place(s), EdgeKind::Main);
    assert(bus_is(s, s.buses[b].id, b));
    lemma_bus_is(s, s.buses[b].id, b);
    assert(bus_edge(s, b)[0] == edge);
    lemma_bus_has(s, s.buses.len() as int, b, edge);
    lemma_has(s, edge);
}

/// An effects unit is fed by its bus, and feeds the master.
pub proof fn a_unit_is_fed_by_its_bus(s: MixerView, f: int, b: int)
    requires
        numbered_apart(s),
        0 <= f < s.fx.len(),
    ensures
        graph_edges(s).contains(
            between(s.strips.len() + s.buses.len() + f, last_place(s), EdgeKind::Main),
        ),
        0 <= b < s.buses.len() && s.buses[b].id == s.fx[f].input ==> graph_edges(s).contains(
            between(s.strips.len() + b, s.strips.len() + s.buses.len() + f, EdgeKind::Main),
        ),
{
    let edge = between(s.strips.len() + s.buses.len() + f, last_place(s), EdgeKind::Main);
    assert(fx_is(s, s.fx[f].id, f));
    lemma_fx_is(s, s.fx[f].id, f);
    let edges = fx_edge(s, f);
    assert(edges[edges.len() - 1] == edge);
    lemma_fx_has(s, s.fx.len() as int, f, edge);
    lemma_has(s, edge);
    if 0 <= b < s.buses.len() && s.buses[b].id == s.fx[f].input {
        let feed = between(s.strips.len() + b, s.strips.len() + s.buses.len() + f, EdgeKind::Main);
        assert(bus_is(s, s.buses[b].id, b));
        lemma_bus_is(s, s.buses[b].id, b);
        assert(edges[0] == feed);
        lemma_fx_has(s, s.fx.len() as int, f, feed);
        lemma_has(s, feed);
    }
}

/// The edge is that of a strip's route.
pub open spec fn is_route(s: MixerView, e: Edge, i: int) -> bool {
    &&& 0 <= i < s.strips.len()
    &&& e.kind == EdgeKind::Main
    &&& e.from.0 == i
    &&& match s.strips[i].route_to {
        RouteTarget::Master => e.to.0 == last_place(s),
        RouteTarget::Bus { id } => s.strips.len() <= e.to.0 < s.strips.len() + s.buses.len()
            && s.buses[e.to.0 - s.strips.len()].id == id,
    }
}

/// The edge is that of a strip's send.
pub open spec fn is_send(s: MixerView, e: Edge, i: int, k: int) -> bool {
    &&& 0 <= i < s.strips.len()
    &&& 0 <= k < s.strips[i].sends.len()
    &&& e.kind == (EdgeKind::Send { tap: s.strips[i].sends[k].tap })
    &&& e.from.0 == i
    &&& s.strips.len() <= e.to.0 < s.strips.len() + s.buses.len()
    &&& s.buses[e.to.0 - s.strips.len()].id == s.strips[i].sends[k].dest
}

/// The edge is that of a group.
pub open spec fn is_group(s: MixerView, e: Edge, b: int) -> bool {
    &&& 0 <= b < s.buses.len()
    &&& s.buses[b].kind == BusKind::Group
    &&& e.kind == EdgeKind::Main
    &&& e.from.0 == s.strips.len() + b
    &&& e.to.0 == last_place(s)
}

/// The edge goes into an effects unit or out of it.
pub open spec fn is_unit(s: MixerView, e: Edge, f: int) -> bool {
    &&& 0 <= f < s.fx.len()
    &&& e.kind == EdgeKind::Main
    &&& {
        ||| {
            &&& e.from.0 == s.strips.len() + s.buses.len() + f
            &&& e.to.0 == last_place(s)
        }
        ||| {
            &&& e.to.0 == s.strips.len() + s.buses.len() + f
            &&& s.strips.len() <= e.from.0 < s.strips.len() + s.buses.len()
            &&& s.buses[e.from.0 - s.strips.len()].id == s.fx[f].input
        }
    }
}

proof fn lemma_bus_place(s: MixerView, id: BusId)
    ensures
        match s.bus_at(id) {
            Some(b) => 0 <= b < s.buses.len() && s.buses[b].id == id,
            None => true,
        },
{
    bus_ids(s.buses).index_of_first_ensures(id);
}

proof fn lemma_of_sends(s: MixerView, i: int, n: int, e: Edge) -> (k: int)
    requires
        numbered_apart(s),
        0 <= i < s.strips.len(),
        0 <= n <= s.strips[i].sends.len(),
        send_edges(s, i, n).contains(e),
    ensures
        is_send(s, e, i, k),
    decreases n,
{
    assert(n > 0);
    lemma_either(send_edges(s, i, n - 1), send_edge(s, i, s.strips[i].sends[n - 1]), e);
    if send_edges(s, i, n - 1).contains(e) {
        lemma_of_sends(s, i, n - 1, e)
    } else {
        assert(strip_is(s, s.strips[i].id, i));
        lemma_strip_is(s, s.strips[i].id, i);
        lemma_bus_place(s, s.strips[i].sends[n - 1].dest);
        n - 1
    }
}

proof fn lemma_of_strips(s: MixerView, n: int, e: Edge)
    requires
        numbered_apart(s),
        0 <= n <= s.strips.len(),
        strip_edges(s, n).contains(e),
    ensures
        (exists|i: int| is_route(s, e, i)) || (exists|i: int, k: int| is_send(s, e, i, k)),
    decreases n,
{
    assert(n > 0);
    let before = strip_edges(s, n - 1);
    let main = main_edge(s, n - 1);
    let sends = send_edges(s, n - 1, s.strips[n - 1].sends.len() as int);
    lemma_either(before + main, sends, e);
    lemma_either(before, main, e);
    if before.contains(e) {
        lemma_of_strips(s, n - 1, e);
    } else if main.contains(e) {
        assert(strip_is(s, s.strips[n - 1].id, n - 1));
        lemma_strip_is(s, s.strips[n - 1].id, n - 1);
        if let RouteTarget::Bus { id } = s.strips[n - 1].route_to {
            lemma_bus_place(s, id);
        }
        assert(is_route(s, e, n - 1));
    } else {
        let k = lemma_of_sends(s, n - 1, s.strips[n - 1].sends.len() as int, e);
        assert(is_send(s, e, n - 1, k));
    }
}

proof fn lemma_of_buses(s: MixerView, n: int, e: Edge)
    requires
        numbered_apart(s),
        0 <= n <= s.buses.len(),
        bus_edges(s, n).contains(e),
    ensures
        exists|b: int| is_group(s, e, b),
    decreases n,
{
    assert(n > 0);
    lemma_either(bus_edges(s, n - 1), bus_edge(s, n - 1), e);
    if bus_edges(s, n - 1).contains(e) {
        lemma_of_buses(s, n - 1, e);
    } else {
        assert(bus_is(s, s.buses[n - 1].id, n - 1));
        lemma_bus_is(s, s.buses[n - 1].id, n - 1);
        assert(is_group(s, e, n - 1));
    }
}

proof fn lemma_of_units(s: MixerView, n: int, e: Edge)
    requires
        numbered_apart(s),
        0 <= n <= s.fx.len(),
        fx_edges(s, n).contains(e),
    ensures
        exists|f: int| is_unit(s, e, f),
    decreases n,
{
    assert(n > 0);
    lemma_either(fx_edges(s, n - 1), fx_edge(s, n - 1), e);
    if fx_edges(s, n - 1).contains(e) {
        lemma_of_units(s, n - 1, e);
    } else {
        assert(fx_is(s, s.fx[n - 1].id, n - 1));
        lemma_fx_is(s, s.fx[n - 1].id, n - 1);
        lemma_bus_place(s, s.fx[n - 1].input);
        assert(is_unit(s, e, n - 1));
    }
}

/// Every edge of a document is that of a strip's route, of a strip's send, of a group
/// to the master, or one into or out of an effects unit.
pub proof fn every_edge_has_its_reason(s: MixerView, e: Edge)
    requires
        numbered_apart(s),
        graph_edges(s).contains(e),
    ensures
        (exists|i: int| is_route(s, e, i)) || (exists|i: int, k: int| is_send(s, e, i, k)) || (
        exists|b: int| is_group(s, e, b)) || (exists|f: int| is_unit(s, e, f)),
{
    lemma_has(s, e);
    if strip_edges(s, s.strips.len() as int).contains(e) {
        lemma_of_strips(s, s.strips.len() as int, e);
    } else if bus_edges(s, s.buses.len() as int).contains(e) {
        lemma_of_buses(s, s.buses.len() as int, e);
    } else {
        lemma_of_units(s, s.fx.len() as int, e);
    }
}

} // verus!
