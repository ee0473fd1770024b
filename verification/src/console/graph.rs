//! The signal graph, always derived from the document and never stored, so
//! that the two cannot drift.

use vstd::prelude::*;
use vstd::set_lib::lemma_int_range;
use vstd::set_lib::set_int_range;

use crate::console::bus::BusKind;
use crate::console::id::BusId;
use crate::console::id::FxId;
use crate::console::id::StripId;
use crate::console::mix::bus_ids;
use crate::console::mix::find_bus;
use crate::console::mix::find_fx;
use crate::console::mix::find_strip;
use crate::console::mix::MixerState;
use crate::console::mix::MixerView;
use crate::console::strip::RouteTarget;
use crate::console::strip::SendState;
use crate::console::strip::SendTap;
use crate::console::strip::StripState;

verus! {

/// An index into a graph's nodes.
#[derive(Debug, Clone, Copy, PartialEq, Eq, Hash, Structural)]
pub struct NodeId(pub u32);

#[derive(Debug, Clone, Copy, PartialEq, Eq, Structural)]
pub enum NodeKind {
    Strip(StripId),
    Bus(BusId),
    Fx(FxId),
    Master,
}

/// The ids of a list of buses with their kinds.
pub open spec fn listed_ids(buses: Seq<(BusId, BusKind)>) -> Seq<BusId> {
    Seq::new(buses.len(), |i: int| buses[i].0)
}

impl NodeKind {
    /// How far down the signal path a node stands.
    pub open spec fn depth(self, buses: Seq<(BusId, BusKind)>) -> u8 {
        match self {
            NodeKind::Strip(_) => 1,
            NodeKind::Bus(id) => match listed_ids(buses).index_of_first(id) {
                Some(i) => match buses[i].1 {
                    BusKind::Group => 2,
                    BusKind::Aux => 3,
                },
                None => 2,
            },
            NodeKind::Fx(_) => 4,
            NodeKind::Master => 5,
        }
    }

    /// How far down the signal path a node stands: strips, groups, auxes,
    /// effects, master. A bus that is not listed counts as a group.
    pub fn stage(self, buses: &[(BusId, BusKind)]) -> (stage: u8)
        ensures
            stage == self.depth(buses@),
    {
        match self {
            NodeKind::Strip(_) => 1,
            NodeKind::Bus(id) => {
                let ghost ids = listed_ids(buses@);
                let mut i: usize = 0;
                while i < buses.len()
                    invariant
                        self == NodeKind::Bus(id),
                        ids == listed_ids(buses@),
                        i <= buses.len(),
                        forall|j: int| 0 <= j < i ==> ids[j] != id,
                    decreases buses.len() - i,
                {
                    if buses[i].0 == id {
                        proof {
                            crate::seqs::lemma_first(ids, id, i as int);
                        }
                        return match buses[i].1 {
                            BusKind::Group => 2,
                            BusKind::Aux => 3,
                        };
                    }
                    i = i + 1;
                }
                proof {
                    crate::seqs::lemma_absent(ids, id);
                }
                2
            },
            NodeKind::Fx(_) => 4,
            NodeKind::Master => 5,
        }
    }
}

#[derive(Debug, Clone, Copy, PartialEq, Eq, Structural)]
pub enum EdgeKind {
    /// The node's main, post-fader signal.
    Main,
    /// An aux send.
    Send { tap: SendTap },
}

#[derive(Debug, Clone, Copy, PartialEq, Eq, Structural)]
pub struct Edge {
    pub from: NodeId,
    pub to: NodeId,
    pub kind: EdgeKind,
}

#[derive(Debug, Clone, PartialEq)]
pub struct SignalGraph {
    /// An index into this list is a `NodeId`.
    pub nodes: Vec<NodeKind>,
    pub edges: Vec<Edge>,
}

/// No order of the nodes puts every source before its sinks.
#[derive(Debug, Clone, Copy, PartialEq, Eq, Structural)]
pub struct CycleError;

impl CycleError {
    /// The message for a reader.
    pub fn to_string(&self) -> (text: String)
        ensures
            text@ == "routing would create a cycle"@,
    {
        "routing would create a cycle".to_owned()
    }
}

/// The node at an index. Indices count in 32 bits.
pub open spec fn node(i: int) -> NodeId {
    NodeId(i as u32)
}

/// The nodes of a document: strips, buses, effects, then the master.
pub open spec fn graph_nodes(s: MixerView) -> Seq<NodeKind> {
    (Seq::new(s.strips.len(), |i: int| NodeKind::Strip(s.strips[i].id)) + Seq::new(
        s.buses.len(),
        |i: int| NodeKind::Bus(s.buses[i].id),
    ) + Seq::new(s.fx.len(), |i: int| NodeKind::Fx(s.fx[i].id))).push(NodeKind::Master)
}

/// The node of a strip.
pub open spec fn strip_node(s: MixerView, id: StripId) -> NodeId {
    node(s.strip_at(id)->0)
}

/// The node of a bus, if the document holds it.
pub open spec fn bus_node(s: MixerView, id: BusId) -> Option<NodeId> {
    match s.bus_at(id) {
        Some(i) => Some(node(s.strips.len() + i)),
        None => None,
    }
}

/// The node of an effects unit.
pub open spec fn fx_node(s: MixerView, id: FxId) -> NodeId {
    node(s.strips.len() + s.buses.len() + s.fx_at(id)->0)
}

/// The node of the master.
pub open spec fn master_node(s: MixerView) -> NodeId {
    node((s.strips.len() + s.buses.len() + s.fx.len()) as int)
}

/// Where a strip's main signal goes. A bus that is missing is no edge: a
/// damaged document falls silent on that path.
pub open spec fn main_edge(s: MixerView, i: int) -> Seq<Edge> {
    let to = match s.strips[i].route_to {
        RouteTarget::Master => Some(master_node(s)),
        RouteTarget::Bus { id } => bus_node(s, id),
    };
    match to {
        Some(to) => seq![Edge { from: strip_node(s, s.strips[i].id), to, kind: EdgeKind::Main }],
        None => Seq::empty(),
    }
}

/// The edge of one send.
pub open spec fn send_edge(s: MixerView, i: int, send: SendState) -> Seq<Edge> {
    match bus_node(s, send.dest) {
        Some(to) => seq![
            Edge {
                from: strip_node(s, s.strips[i].id),
                to,
                kind: EdgeKind::Send { tap: send.tap },
            },
        ],
        None => Seq::empty(),
    }
}

/// The edges of the first `k` sends of a strip.
pub open spec fn send_edges(s: MixerView, i: int, k: int) -> Seq<Edge>
    decreases k,
{
    if k <= 0 {
        Seq::empty()
    } else {
        send_edges(s, i, k - 1) + send_edge(s, i, s.strips[i].sends[k - 1])
    }
}

/// The edges of the first `n` strips.
pub open spec fn strip_edges(s: MixerView, n: int) -> Seq<Edge>
    decreases n,
{
    if n <= 0 {
        Seq::empty()
    } else {
        strip_edges(s, n - 1) + main_edge(s, n - 1) + send_edges(
            s,
            n - 1,
            s.strips[n - 1].sends.len() as int,
        )
    }
}

/// A group mixes into the master; an aux is heard through effects alone.
pub open spec fn bus_edge(s: MixerView, i: int) -> Seq<Edge> {
    match s.buses[i].kind {
        BusKind::Group => seq![
            Edge {
                from: bus_node(s, s.buses[i].id)->0,
                to: master_node(s),
                kind: EdgeKind::Main,
            },
        ],
        BusKind::Aux => Seq::empty(),
    }
}

/// The edges of the first `n` buses.
pub open spec fn bus_edges(s: MixerView, n: int) -> Seq<Edge>
    decreases n,
{
    if n <= 0 {
        Seq::empty()
    } else {
        bus_edges(s, n - 1) + bus_edge(s, n - 1)
    }
}

/// The edge into an effects unit, if its bus is there, and the one out of it.
pub open spec fn fx_edge(s: MixerView, i: int) -> Seq<Edge> {
    let unit = fx_node(s, s.fx[i].id);
    let input = match bus_node(s, s.fx[i].input) {
        Some(from) => seq![Edge { from, to: unit, kind: EdgeKind::Main }],
        None => Seq::empty(),
    };
    input.push(Edge { from: unit, to: master_node(s), kind: EdgeKind::Main })
}

/// The edges of the first `n` effects units.
pub open spec fn fx_edges(s: MixerView, n: int) -> Seq<Edge>
    decreases n,
{
    if n <= 0 {
        Seq::empty()
    } else {
        fx_edges(s, n - 1) + fx_edge(s, n - 1)
    }
}

/// The edges of a document.
pub open spec fn graph_edges(s: MixerView) -> Seq<Edge> {
    strip_edges(s, s.strips.len() as int) + bus_edges(s, s.buses.len() as int) + fx_edges(
        s,
        s.fx.len() as int,
    )
}

/// The node of a bus, if the document holds it.
fn find_bus_node(state: &MixerState, id: BusId) -> (found: Option<NodeId>)
    requires
        state.strips@.len() + state.buses@.len() <= usize::MAX,
    ensures
        found == bus_node(state@, id),
{
    match find_bus(&state.buses, id) {
        Some(i) => Some(NodeId((state.strips.len() + i) as u32)),
        None => None,
    }
}

/// The nodes of the document.
fn collect_nodes(state: &MixerState) -> (nodes: Vec<NodeKind>)
    ensures
        nodes@ == graph_nodes(state@),
        nodes@.len() == state.strips@.len() + state.buses@.len() + state.fx@.len() + 1,
        state.strips@.len() + state.buses@.len() + state.fx@.len() + 1 <= usize::MAX,
{
    let mut nodes: Vec<NodeKind> = Vec::new();
    let ghost s = state@;
    let ghost a = Seq::new(s.strips.len(), |i: int| NodeKind::Strip(s.strips[i].id));
    let ghost b = Seq::new(s.buses.len(), |i: int| NodeKind::Bus(s.buses[i].id));
    let ghost c = Seq::new(s.fx.len(), |i: int| NodeKind::Fx(s.fx[i].id));
    let mut i: usize = 0;
    while i < state.strips.len()
        invariant
            s == state@,
            a == Seq::new(s.strips.len(), |i: int| NodeKind::Strip(s.strips[i].id)),
            i <= state.strips.len(),
            nodes@ == a.take(i as int),
        decreases state.strips.len() - i,
    {
        nodes.push(NodeKind::Strip(state.strips[i].id));
        i = i + 1;
        assert(nodes@ =~= a.take(i as int));
    }
    assert(nodes@ =~= a + b.take(0));
    let mut i: usize = 0;
    while i < state.buses.len()
        invariant
            s == state@,
            b == Seq::new(s.buses.len(), |i: int| NodeKind::Bus(s.buses[i].id)),
            i <= state.buses.len(),
            nodes@ == a + b.take(i as int),
        decreases state.buses.len() - i,
    {
        nodes.push(NodeKind::Bus(state.buses[i].id));
        i = i + 1;
        assert(nodes@ =~= a + b.take(i as int));
    }
    assert(nodes@ =~= a + b + c.take(0));
    let mut i: usize = 0;
    while i < state.fx.len()
        invariant
            s == state@,
            c == Seq::new(s.fx.len(), |i: int| NodeKind::Fx(s.fx[i].id)),
            i <= state.fx.len(),
            nodes@ == a + b + c.take(i as int),
        decreases state.fx.len() - i,
    {
        nodes.push(NodeKind::Fx(state.fx[i].id));
        i = i + 1;
        assert(nodes@ =~= a + b + c.take(i as int));
    }
    assert(nodes@ =~= a + b + c);
    nodes.push(NodeKind::Master);
    let total: usize = nodes.len();
    assert(total == a.len() + b.len() + c.len() + 1);
    nodes
}

/// Writes the edges of one strip behind `edges`.
fn push_strip_edges(edges: &mut Vec<Edge>, state: &MixerState, i: usize, master: NodeId)
    requires
        i < state.strips@.len(),
        state.strips@.len() + state.buses@.len() <= usize::MAX,
        master == master_node(state@),
    ensures
        final(edges)@ == old(edges)@ + main_edge(state@, i as int) + send_edges(
            state@,
            i as int,
            state@.strips[i as int].sends.len() as int,
        ),
{
    let ghost s = state@;
    let strip: &StripState = &state.strips[i];
    let at: Option<usize> = find_strip(&state.strips, strip.id);
    proof {
        crate::console::mix::strip_ids(s.strips).index_of_first_ensures(strip.id);
        assert(crate::console::mix::strip_ids(s.strips)[i as int] == strip.id);
    }
    let from: NodeId = match at {
        Some(k) => NodeId(k as u32),
        None => master,
    };
    assert(from == strip_node(s, s.strips[i as int].id));
    let to: Option<NodeId> = match strip.route_to {
        RouteTarget::Master => Some(master),
        RouteTarget::Bus { id } => find_bus_node(state, id),
    };
    match to {
        Some(to) => {
            edges.push(Edge { from, to, kind: EdgeKind::Main });
        },
        None => {},
    }
    let ghost base = old(edges)@ + main_edge(s, i as int);
    assert(edges@ =~= base);
    let mut k: usize = 0;
    assert(edges@ =~= base + send_edges(s, i as int, 0));
    while k < strip.sends.len()
        invariant
            s == state@,
            i < state.strips@.len(),
            *strip == state.strips@[i as int],
            state.strips@.len() + state.buses@.len() <= usize::MAX,
            from == strip_node(s, s.strips[i as int].id),
            k <= strip.sends.len(),
            edges@ == base + send_edges(s, i as int, k as int),
        decreases strip.sends.len() - k,
    {
        let send: SendState = strip.sends[k];
        let ghost before = edges@;
        match find_bus_node(state, send.dest) {
            Some(to) => {
                edges.push(Edge { from, to, kind: EdgeKind::Send { tap: send.tap } });
            },
            None => {},
        }
        proof {
            assert(s.strips[i as int].sends[k as int] == send);
            assert(edges@ =~= before + send_edge(s, i as int, send));
            assert(edges@ =~= base + send_edges(s, i as int, k + 1));
        }
        k = k + 1;
    }
}

/// The graph of the document.
pub fn derive_graph(state: &MixerState) -> (graph: SignalGraph)
    ensures
        graph.nodes@ == graph_nodes(state@),
        graph.edges@ == graph_edges(state@),
{
    let ghost s = state@;
    let nodes: Vec<NodeKind> = collect_nodes(state);
    let master: NodeId = NodeId((nodes.len() - 1) as u32);
    let mut edges: Vec<Edge> = Vec::new();
    let mut i: usize = 0;
    while i < state.strips.len()
        invariant
            s == state@,
            state.strips@.len() + state.buses@.len() <= usize::MAX,
            master == master_node(s),
            i <= state.strips.len(),
            edges@ == strip_edges(s, i as int),
        decreases state.strips.len() - i,
    {
        push_strip_edges(&mut edges, state, i, master);
        i = i + 1;
    }
    let ghost first = edges@;
    assert(edges@ =~= first + bus_edges(s, 0));
    let mut i: usize = 0;
    while i < state.buses.len()
        invariant
            s == state@,
            state.strips@.len() + state.buses@.len() <= usize::MAX,
            master == master_node(s),
            i <= state.buses.len(),
            edges@ == first + bus_edges(s, i as int),
        decreases state.buses.len() - i,
    {
        let ghost before = edges@;
        match state.buses[i].kind {
            BusKind::Group => {
                let id: BusId = state.buses[i].id;
                let found: Option<NodeId> = find_bus_node(state, id);
                proof {
                    bus_ids(s.buses).index_of_first_ensures(id);
                    assert(bus_ids(s.buses)[i as int] == id);
                }
                match found {
                    Some(from) => {
                        edges.push(Edge { from, to: master, kind: EdgeKind::Main });
                    },
                    None => {},
                }
            },
            BusKind::Aux => {},
        }
        proof {
            assert(edges@ =~= before + bus_edge(s, i as int));
            assert(edges@ =~= first + bus_edges(s, i + 1));
        }
        i = i + 1;
    }
    let ghost second = edges@;
    assert(edges@ =~= second + fx_edges(s, 0));
    let mut i: usize = 0;
    while i < state.fx.len()
        invariant
            s == state@,
            state.strips@.len() + state.buses@.len() + state.fx@.len() + 1 <= usize::MAX,
            master == master_node(s),
            i <= state.fx.len(),
            edges@ == second + fx_edges(s, i as int),
        decreases state.fx.len() - i,
    {
        let ghost before = edges@;
        let id: FxId = state.fx[i].id;
        let at: Option<usize> = find_fx(&state.fx, id);
        proof {
            crate::console::mix::fx_ids(s.fx).index_of_first_ensures(id);
            assert(crate::console::mix::fx_ids(s.fx)[i as int] == id);
        }
        let unit: NodeId = match at {
            Some(k) => NodeId((state.strips.len() + state.buses.len() + k) as u32),
            None => master,
        };
        match find_bus_node(state, state.fx[i].input) {
            Some(from) => {
                edges.push(Edge { from, to: unit, kind: EdgeKind::Main });
            },
            None => {},
        }
        edges.push(Edge { from: unit, to: master, kind: EdgeKind::Main });
        proof {
            assert(edges@ =~= before + fx_edge(s, i as int));
            assert(edges@ =~= second + fx_edges(s, i + 1));
        }
        i = i + 1;
    }
    SignalGraph { nodes, edges }
}

/// Whether `before` stands in front of `after` in the order.
pub open spec fn precedes(order: Seq<NodeId>, before: NodeId, after: NodeId) -> bool {
    exists|i: int, j: int|
        0 <= i < j < order.len() && #[trigger] order[i] == before && #[trigger] order[j] == after
}

/// An order that holds every node once and puts every source before its
/// sinks.
pub open spec fn valid_order(nodes: Seq<NodeKind>, edges: Seq<Edge>, order: Seq<NodeId>) -> bool {
    &&& order.len() == nodes.len()
    &&& order.no_duplicates()
    &&& forall|i: int| 0 <= i < order.len() ==> (#[trigger] order[i]).0 < nodes.len()
    &&& forall|k: int|
        0 <= k < edges.len() ==> precedes(order, (#[trigger] edges[k]).from, edges[k].to)
}

/// Whether a node is among those already placed.
pub open spec fn placed(order: Seq<NodeId>, n: int) -> bool {
    exists|i: int| 0 <= i < order.len() && (#[trigger] order[i]).0 == n
}

/// A node that is not placed yet and waits for nothing that is not.
pub open spec fn ready(
    nodes: Seq<NodeKind>,
    edges: Seq<Edge>,
    order: Seq<NodeId>,
    n: int,
) -> bool {
    &&& 0 <= n < nodes.len()
    &&& !placed(order, n)
    &&& forall|k: int|
        0 <= k < edges.len() && (#[trigger] edges[k]).to.0 == n ==> placed(
            order,
            edges[k].from.0 as int,
        )
}

/// Which ready node is taken: always the one with the smallest index.
pub open spec fn taken_next(
    nodes: Seq<NodeKind>,
    edges: Seq<Edge>,
    order: Seq<NodeId>,
    n: int,
) -> bool {
    &&& ready(nodes, edges, order, n)
    &&& forall|m: int| #[trigger] ready(nodes, edges, order, m) ==> n <= m
}

/// Whether each node of the order is the one to take after those before it.
pub open spec fn taken_in_turn(
    nodes: Seq<NodeKind>,
    edges: Seq<Edge>,
    order: Seq<NodeId>,
) -> bool {
    forall|k: int|
        0 <= k < order.len() ==> taken_next(
            nodes,
            edges,
            order.take(k),
            (#[trigger] order[k]).0 as int,
        )
}

/// How many edges into `to` come from a node that is not placed.
spec fn waiting(edges: Seq<Edge>, order: Seq<NodeId>, to: int) -> nat
    decreases edges.len(),
{
    if edges.len() == 0 {
        0
    } else {
        let last = edges.last();
        waiting(edges.drop_last(), order, to) + if last.to.0 == to && !placed(
            order,
            last.from.0 as int,
        ) {
            1nat
        } else {
            0
        }
    }
}

/// How many edges lead from `from` to `to`.
spec fn links(edges: Seq<Edge>, from: int, to: int) -> nat
    decreases edges.len(),
{
    if edges.len() == 0 {
        0
    } else {
        let last = edges.last();
        links(edges.drop_last(), from, to) + if last.to.0 == to && last.from.0 == from {
            1nat
        } else {
            0
        }
    }
}

proof fn lemma_placed_push(order: Seq<NodeId>, x: NodeId, n: int)
    ensures
        placed(order.push(x), n) <==> placed(order, n) || x.0 == n,
{
    let longer = order.push(x);
    if placed(order, n) {
        let i = choose|i: int| 0 <= i < order.len() && (#[trigger] order[i]).0 == n;
        assert(longer[i].0 == n);
    }
    if x.0 == n {
        assert(longer[order.len() as int].0 == n);
    }
    if placed(longer, n) {
        let i = choose|i: int| 0 <= i < longer.len() && (#[trigger] longer[i]).0 == n;
        if i < order.len() {
            assert(order[i].0 == n);
        }
    }
}

proof fn lemma_waiting_after(edges: Seq<Edge>, order: Seq<NodeId>, x: NodeId, to: int)
    requires
        !placed(order, x.0 as int),
    ensures
        waiting(edges, order, to) == waiting(edges, order.push(x), to) + links(
            edges,
            x.0 as int,
            to,
        ),
    decreases edges.len(),
{
    if edges.len() > 0 {
        lemma_waiting_after(edges.drop_last(), order, x, to);
        lemma_placed_push(order, x, edges.last().from.0 as int);
    }
}

proof fn lemma_links_monotone(edges: Seq<Edge>, k: int, from: int, to: int)
    requires
        0 <= k <= edges.len(),
    ensures
        links(edges.take(k), from, to) <= links(edges, from, to),
    decreases edges.len() - k,
{
    if k < edges.len() {
        lemma_links_monotone(edges, k + 1, from, to);
        assert(edges.take(k + 1).drop_last() =~= edges.take(k));
    } else {
        assert(edges.take(k) =~= edges);
    }
}

proof fn lemma_waiting_zero(edges: Seq<Edge>, order: Seq<NodeId>, to: int)
    ensures
        waiting(edges, order, to) == 0 <==> forall|k: int|
            0 <= k < edges.len() && (#[trigger] edges[k]).to.0 == to ==> placed(
                order,
                edges[k].from.0 as int,
            ),
        waiting(edges, order, to) <= edges.len(),
    decreases edges.len(),
{
    if edges.len() > 0 {
        let rest = edges.drop_last();
        lemma_waiting_zero(rest, order, to);
        let last = edges.last();
        if waiting(edges, order, to) == 0 {
            assert forall|k: int| 0 <= k < edges.len() && (#[trigger] edges[k]).to.0 == to implies
                placed(order, edges[k].from.0 as int) by {
                if k < rest.len() {
                    assert(rest[k] == edges[k]);
                }
            }
        }
        if forall|k: int|
            0 <= k < edges.len() && (#[trigger] edges[k]).to.0 == to ==> placed(
                order,
                edges[k].from.0 as int,
            ) {
            assert forall|k: int| 0 <= k < rest.len() && (#[trigger] rest[k]).to.0 == to implies
                placed(order, rest[k].from.0 as int) by {
                assert(rest[k] == edges[k]);
            }
            assert(edges[edges.len() - 1] == last);
        }
    }
}

/// Where nothing is ready, whatever a valid order holds is placed already.
proof fn lemma_all_placed(
    nodes: Seq<NodeKind>,
    edges: Seq<Edge>,
    order: Seq<NodeId>,
    valid: Seq<NodeId>,
    k: int,
)
    requires
        valid_order(nodes, edges, valid),
        forall|n: int| !#[trigger] ready(nodes, edges, order, n),
        0 <= k <= valid.len(),
    ensures
        forall|i: int| 0 <= i < k ==> placed(order, (#[trigger] valid[i]).0 as int),
    decreases k,
{
    if k > 0 {
        lemma_all_placed(nodes, edges, order, valid, k - 1);
        let n = valid[k - 1].0 as int;
        if !placed(order, n) {
            assert(!ready(nodes, edges, order, n));
            let e = choose|e: int|
                0 <= e < edges.len() && (#[trigger] edges[e]).to.0 == n && !placed(
                    order,
                    edges[e].from.0 as int,
                );
            assert(precedes(valid, edges[e].from, edges[e].to));
            let (i, j) = choose|i: int, j: int|
                0 <= i < j < valid.len() && #[trigger] valid[i] == edges[e].from
                    && #[trigger] valid[j] == edges[e].to;
            assert(valid[j] == valid[k - 1]);
            assert(j == k - 1);
            assert(placed(order, valid[i].0 as int));
        }
    }
}

/// Distinct nodes that cover a whole range are as many as the range.
proof fn lemma_cover_len(order: Seq<NodeId>, n: int)
    requires
        n >= 0,
        order.no_duplicates(),
        forall|i: int| 0 <= i < order.len() ==> (#[trigger] order[i]).0 < n,
        forall|m: int| 0 <= m < n ==> #[trigger] placed(order, m),
    ensures
        order.len() == n,
{
    let numbers = Seq::new(order.len(), |i: int| order[i].0 as int);
    assert(numbers.no_duplicates()) by {
        assert forall|i: int, j: int|
            0 <= i < numbers.len() && 0 <= j < numbers.len() && i != j implies numbers[i]
            != numbers[j] by {
            assert(order[i] != order[j]);
        }
    }
    numbers.unique_seq_to_set();
    lemma_int_range(0, n);
    assert(numbers.to_set() =~= set_int_range(0, n)) by {
        assert forall|m: int| numbers.to_set().contains(m) <==> set_int_range(0, n).contains(m) by {
            if 0 <= m < n {
                assert(placed(order, m));
                let i = choose|i: int| 0 <= i < order.len() && (#[trigger] order[i]).0 == m;
                assert(numbers[i] == m);
            }
            if numbers.to_set().contains(m) {
                let i = choose|i: int| 0 <= i < numbers.len() && numbers[i] == m;
                assert(order[i].0 == m);
            }
        }
    }
}

/// The first ready node, if there is one.
fn pick(in_degree: &Vec<usize>, done: &Vec<bool>) -> (picked: Option<usize>)
    requires
        in_degree@.len() == done@.len(),
    ensures
        match picked {
            Some(n) => n < done@.len() && !done@[n as int] && in_degree@[n as int] == 0
                && forall|m: int|
                0 <= m < done@.len() && !(#[trigger] done@[m]) && in_degree@[m] == 0 ==> n <= m,
            None => forall|m: int|
                0 <= m < done@.len() ==> (#[trigger] done@[m]) || in_degree@[m] != 0,
        },
{
    let mut i: usize = 0;
    while i < done.len()
        invariant
            in_degree@.len() == done@.len(),
            i <= done.len(),
            forall|m: int| 0 <= m < i ==> (#[trigger] done@[m]) || in_degree@[m] != 0,
        decreases done.len() - i,
    {
        if !done[i] && in_degree[i] == 0 {
            return Some(i);
        }
        i = i + 1;
    }
    None
}

/// How many sources each node waits for.
fn count_in_degrees(graph: &SignalGraph) -> (in_degree: Vec<usize>)
    requires
        forall|k: int|
            0 <= k < graph.edges@.len() ==> (#[trigger] graph.edges@[k]).to.0
                < graph.nodes@.len(),
    ensures
        in_degree@.len() == graph.nodes@.len(),
        forall|i: int|
            0 <= i < in_degree@.len() ==> #[trigger] in_degree@[i] == waiting(
                graph.edges@,
                Seq::empty(),
                i,
            ),
{
    let n: usize = graph.nodes.len();
    let ghost none = Seq::<NodeId>::empty();
    let mut in_degree: Vec<usize> = Vec::new();
    let mut i: usize = 0;
    while i < n
        invariant
            i <= n,
            in_degree@.len() == i,
            forall|j: int| 0 <= j < i ==> #[trigger] in_degree@[j] == 0,
        decreases n - i,
    {
        in_degree.push(0);
        i = i + 1;
    }
    let mut k: usize = 0;
    while k < graph.edges.len()
        invariant
            n == graph.nodes@.len(),
            none == Seq::<NodeId>::empty(),
            in_degree@.len() == n,
            k <= graph.edges.len(),
            forall|e: int|
                0 <= e < graph.edges@.len() ==> (#[trigger] graph.edges@[e]).to.0
                    < graph.nodes@.len(),
            forall|j: int|
                0 <= j < n ==> #[trigger] in_degree@[j] == waiting(
                    graph.edges@.take(k as int),
                    none,
                    j,
                ),
        decreases graph.edges.len() - k,
    {
        let to: usize = graph.edges[k].to.0 as usize;
        let ghost shorter = graph.edges@.take(k as int);
        let ghost longer = graph.edges@.take(k + 1);
        proof {
            assert(longer.drop_last() =~= shorter);
            assert(longer.last() == graph.edges@[k as int]);
            lemma_waiting_zero(shorter, none, to as int);
            assert(!placed(none, graph.edges@[k as int].from.0 as int));
        }
        in_degree[to] = in_degree[to] + 1;
        k = k + 1;
    }
    assert(graph.edges@.take(k as int) =~= graph.edges@);
    in_degree
}

/// Frees every sink of a node that was just placed.
fn release_sinks(graph: &SignalGraph, in_degree: &mut Vec<usize>, Ghost(order): Ghost<Seq<NodeId>>, x: usize)
    requires
        old(in_degree)@.len() == graph.nodes@.len(),
        x <= u32::MAX,
        !placed(order, x as int),
        forall|k: int|
            0 <= k < graph.edges@.len() ==> (#[trigger] graph.edges@[k]).to.0
                < graph.nodes@.len(),
        forall|i: int|
            0 <= i < old(in_degree)@.len() ==> #[trigger] old(in_degree)@[i] == waiting(
                graph.edges@,
                order,
                i,
            ),
    ensures
        final(in_degree)@.len() == graph.nodes@.len(),
        forall|i: int|
            0 <= i < final(in_degree)@.len() ==> #[trigger] final(in_degree)@[i] == waiting(
                graph.edges@,
                order.push(NodeId(x as u32)),
                i,
            ),
{
    let ghost start = in_degree@;
    let mut k: usize = 0;
    while k < graph.edges.len()
        invariant
            in_degree@.len() == graph.nodes@.len(),
            start.len() == in_degree@.len(),
            k <= graph.edges.len(),
            x <= u32::MAX,
            !placed(order, x as int),
            forall|e: int|
                0 <= e < graph.edges@.len() ==> (#[trigger] graph.edges@[e]).to.0
                    < graph.nodes@.len(),
            forall|i: int|
                0 <= i < start.len() ==> #[trigger] start[i] == waiting(graph.edges@, order, i),
            forall|i: int|
                0 <= i < start.len() ==> #[trigger] in_degree@[i] == start[i] - links(
                    graph.edges@.take(k as int),
                    x as int,
                    i,
                ),
        decreases graph.edges.len() - k,
    {
        let edge: Edge = graph.edges[k];
        proof {
            assert(graph.edges@.take(k + 1).drop_last() =~= graph.edges@.take(k as int));
            assert(graph.edges@.take(k + 1).last() == edge);
        }
        if edge.from.0 as usize == x {
            let to: usize = edge.to.0 as usize;
            proof {
                lemma_links_monotone(graph.edges@, k + 1, x as int, to as int);
                lemma_waiting_after(graph.edges@, order, NodeId(x as u32), to as int);
            }
            in_degree[to] = in_degree[to] - 1;
        }
        k = k + 1;
    }
    proof {
        assert(graph.edges@.take(k as int) =~= graph.edges@);
        assert forall|i: int| 0 <= i < in_degree@.len() implies #[trigger] in_degree@[i] == waiting(
            graph.edges@,
            order.push(NodeId(x as u32)),
            i,
        ) by {
            lemma_waiting_after(graph.edges@, order, NodeId(x as u32), i);
        }
    }
}

/// Kahn's algorithm, stable by node index: of the nodes that are ready the one with
/// the smallest index comes first. It fails where no order puts every source before
/// its sinks, and only there.
pub fn topo_order(graph: &SignalGraph) -> (sorted: Result<Vec<NodeId>, CycleError>)
    requires
        graph.nodes@.len() <= u32::MAX + 1,
        forall|k: int|
            0 <= k < graph.edges@.len() ==> (#[trigger] graph.edges@[k]).to.0
                < graph.nodes@.len(),
    ensures
        match sorted {
            Ok(order) => valid_order(graph.nodes@, graph.edges@, order@) && taken_in_turn(
                graph.nodes@,
                graph.edges@,
                order@,
            ),
            Err(_) => forall|order: Seq<NodeId>|
                #![trigger valid_order(graph.nodes@, graph.edges@, order)]
                !valid_order(graph.nodes@, graph.edges@, order),
        },
{
    let n: usize = graph.nodes.len();
    let ghost nodes = graph.nodes@;
    let ghost edges = graph.edges@;
    let mut in_degree: Vec<usize> = count_in_degrees(graph);
    let mut done: Vec<bool> = Vec::new();
    let mut i: usize = 0;
    while i < n
        invariant
            i <= n,
            done@.len() == i,
            forall|j: int| 0 <= j < i ==> !#[trigger] done@[j],
        decreases n - i,
    {
        done.push(false);
        i = i + 1;
    }
    let mut order: Vec<NodeId> = Vec::new();
    let mut left: usize = n;
    while left > 0
        invariant
            nodes == graph.nodes@,
            edges == graph.edges@,
            n == nodes.len(),
            n <= u32::MAX + 1,
            left + order@.len() == n,
            in_degree@.len() == n,
            done@.len() == n,
            forall|k: int| 0 <= k < edges.len() ==> (#[trigger] edges[k]).to.0 < n,
            forall|i: int|
                0 <= i < n ==> #[trigger] in_degree@[i] == waiting(edges, order@, i),
            forall|i: int| 0 <= i < n ==> #[trigger] done@[i] == placed(order@, i),
            order@.no_duplicates(),
            forall|i: int| 0 <= i < order@.len() ==> (#[trigger] order@[i]).0 < n,
            taken_in_turn(nodes, edges, order@),
        decreases left,
    {
        let picked: Option<usize> = pick(&in_degree, &done);
        proof {
            assert forall|m: int| #[trigger] ready(nodes, edges, order@, m) <==> (0 <= m < n
                && !done@[m] && in_degree@[m] == 0) by {
                if 0 <= m < n {
                    lemma_waiting_zero(edges, order@, m);
                    assert(in_degree@[m] == waiting(edges, order@, m));
                    assert(done@[m] == placed(order@, m));
                }
            }
        }
        match picked {
            Some(x) => {
                let ghost before = order@;
                assert(ready(nodes, edges, before, x as int));
                assert(taken_next(nodes, edges, before, x as int));
                release_sinks(graph, &mut in_degree, Ghost(before), x);
                order.push(NodeId(x as u32));
                done[x] = true;
                left = left - 1;
                proof {
                    assert forall|i: int| 0 <= i < n implies #[trigger] done@[i] == placed(
                        order@,
                        i,
                    ) by {
                        lemma_placed_push(before, NodeId(x as u32), i);
                    }
                    assert forall|k: int| 0 <= k < order@.len() implies taken_next(
                        nodes,
                        edges,
                        order@.take(k),
                        (#[trigger] order@[k]).0 as int,
                    ) by {
                        if k < before.len() {
                            assert(before[k] == order@[k]);
                            assert(order@.take(k) =~= before.take(k));
                        } else {
                            assert(order@.take(k) =~= before);
                        }
                    }
                    assert(order@.no_duplicates()) by {
                        assert forall|a: int, b: int|
                            0 <= a < order@.len() && 0 <= b < order@.len() && a
                                != b implies order@[a] != order@[b] by {
                            if a < before.len() && b < before.len() {
                                assert(before[a] != before[b]);
                            } else if a < before.len() {
                                assert(before[a].0 != x);
                            } else {
                                assert(before[b].0 != x);
                            }
                        }
                    }
                }
            },
            None => {
                proof {
                    assert forall|valid: Seq<NodeId>| !#[trigger] valid_order(
                        nodes,
                        edges,
                        valid,
                    ) by {
                        if valid_order(nodes, edges, valid) {
                            lemma_all_placed(nodes, edges, order@, valid, valid.len() as int);
                            lemma_valid_covers(nodes, edges, valid);
                            assert forall|m: int| 0 <= m < n implies #[trigger] placed(
                                order@,
                                m,
                            ) by {
                                assert(placed(valid, m));
                                let i = choose|i: int|
                                    0 <= i < valid.len() && (#[trigger] valid[i]).0 == m;
                                assert(placed(order@, valid[i].0 as int));
                            }
                            lemma_cover_len(order@, n as int);
                        }
                    }
                }
                return Err(CycleError);
            },
        }
    }
    proof {
        assert forall|k: int| 0 <= k < edges.len() implies precedes(
            order@,
            (#[trigger] edges[k]).from,
            edges[k].to,
        ) by {
            lemma_taken_sources_first(nodes, edges, order@, k);
        }
    }
    Ok(order)
}

/// A valid order holds every node.
proof fn lemma_valid_covers(nodes: Seq<NodeKind>, edges: Seq<Edge>, order: Seq<NodeId>)
    requires
        valid_order(nodes, edges, order),
    ensures
        forall|m: int| 0 <= m < nodes.len() ==> #[trigger] placed(order, m),
{
    lemma_full(order, nodes.len() as int);
}

/// As many distinct nodes of a range as the range is long are all of them.
proof fn lemma_full(order: Seq<NodeId>, n: int)
    requires
        order.len() == n,
        order.no_duplicates(),
        forall|i: int| 0 <= i < order.len() ==> (#[trigger] order[i]).0 < n,
    ensures
        forall|m: int| 0 <= m < n ==> #[trigger] placed(order, m),
{
    let numbers = Seq::new(order.len(), |i: int| order[i].0 as int);
    assert(numbers.no_duplicates()) by {
        assert forall|i: int, j: int|
            0 <= i < numbers.len() && 0 <= j < numbers.len() && i != j implies numbers[i]
            != numbers[j] by {
            assert(order[i] != order[j]);
        }
    }
    numbers.unique_seq_to_set();
    lemma_int_range(0, n);
    let range = set_int_range(0, n);
    assert(numbers.to_set().subset_of(range)) by {
        assert forall|m: int| numbers.to_set().contains(m) implies range.contains(m) by {
            let i = choose|i: int| 0 <= i < numbers.len() && numbers[i] == m;
            assert(order[i].0 == m);
        }
    }
    vstd::set_lib::lemma_subset_equality(numbers.to_set(), range);
    assert forall|m: int| 0 <= m < n implies #[trigger] placed(order, m) by {
        assert(numbers.to_set().contains(m));
        let i = choose|i: int| 0 <= i < numbers.len() && numbers[i] == m;
        assert(order[i].0 == m);
    }
}

/// In a full order taken in turn, the source of an edge stands before its
/// sink.
proof fn lemma_taken_sources_first(
    nodes: Seq<NodeKind>,
    edges: Seq<Edge>,
    order: Seq<NodeId>,
    k: int,
)
    requires
        order.len() == nodes.len(),
        order.no_duplicates(),
        forall|i: int| 0 <= i < order.len() ==> (#[trigger] order[i]).0 < nodes.len(),
        taken_in_turn(nodes, edges, order),
        0 <= k < edges.len(),
        edges[k].to.0 < nodes.len(),
    ensures
        precedes(order, edges[k].from, edges[k].to),
{
    lemma_full(order, nodes.len() as int);
    let to = edges[k].to.0 as int;
    assert(placed(order, to));
    let j = choose|j: int| 0 <= j < order.len() && (#[trigger] order[j]).0 == to;
    let earlier = order.take(j);
    assert(taken_next(nodes, edges, earlier, order[j].0 as int));
    assert(placed(earlier, edges[k].from.0 as int));
    let i = choose|i: int|
        0 <= i < earlier.len() && (#[trigger] earlier[i]).0 == edges[k].from.0;
    assert(order[i] == edges[k].from && order[j] == edges[k].to);
}

/// The buses of a document with their kinds, in desk order.
pub open spec fn bus_list(s: MixerView) -> Seq<(BusId, BusKind)> {
    Seq::new(s.buses.len(), |i: int| (s.buses[i].id, s.buses[i].kind))
}

/// An edge between two nodes of the document that leads further down the
/// signal path.
pub open spec fn downstream(s: MixerView, e: Edge) -> bool {
    let nodes = graph_nodes(s);
    &&& e.from.0 < e.to.0 < nodes.len()
    &&& nodes[e.from.0 as int].depth(bus_list(s)) < nodes[e.to.0 as int].depth(bus_list(s))
}

pub open spec fn all_downstream(s: MixerView, edges: Seq<Edge>) -> bool {
    forall|k: int| 0 <= k < edges.len() ==> downstream(s, #[trigger] edges[k])
}

/// Whether the document's nodes can be counted in 32 bits.
pub open spec fn countable(s: MixerView) -> bool {
    s.strips.len() + s.buses.len() + s.fx.len() + 1 <= u32::MAX + 1
}

proof fn lemma_join_downstream(s: MixerView, a: Seq<Edge>, b: Seq<Edge>)
    requires
        all_downstream(s, a),
        all_downstream(s, b),
    ensures
        all_downstream(s, a + b),
{
    assert forall|k: int| 0 <= k < (a + b).len() implies downstream(s, #[trigger] (a + b)[k]) by {
        if k < a.len() {
            assert((a + b)[k] == a[k]);
        } else {
            assert((a + b)[k] == b[k - a.len()]);
        }
    }
}

proof fn lemma_strip_downstream(s: MixerView, i: int, k: int)
    requires
        countable(s),
        0 <= i < s.strips.len(),
        0 <= k <= s.strips[i].sends.len(),
    ensures
        all_downstream(s, main_edge(s, i)),
        all_downstream(s, send_edges(s, i, k)),
    decreases k,
{
    let id = s.strips[i].id;
    let ids = crate::console::mix::strip_ids(s.strips);
    ids.index_of_first_ensures(id);
    assert(ids[i] == id);
    assert(graph_nodes(s)[s.strip_at(id)->0] is Strip);
    assert forall|b: BusId| bus_node(s, b) is Some implies ({
        let n = (#[trigger] bus_node(s, b))->0;
        &&& s.strips.len() <= n.0 < s.strips.len() + s.buses.len()
        &&& graph_nodes(s)[n.0 as int] is Bus
    }) by {
        bus_ids(s.buses).index_of_first_ensures(b);
    }
    assert(graph_nodes(s)[master_node(s).0 as int] == NodeKind::Master);
    if k > 0 {
        lemma_strip_downstream(s, i, k - 1);
        lemma_join_downstream(
            s,
            send_edges(s, i, k - 1),
            send_edge(s, i, s.strips[i].sends[k - 1]),
        );
    }
}

proof fn lemma_strips_downstream(s: MixerView, n: int)
    requires
        countable(s),
        0 <= n <= s.strips.len(),
    ensures
        all_downstream(s, strip_edges(s, n)),
    decreases n,
{
    if n > 0 {
        let sends = s.strips[n - 1].sends.len() as int;
        lemma_strips_downstream(s, n - 1);
        lemma_strip_downstream(s, n - 1, sends);
        lemma_join_downstream(s, strip_edges(s, n - 1), main_edge(s, n - 1));
        lemma_join_downstream(
            s,
            strip_edges(s, n - 1) + main_edge(s, n - 1),
            send_edges(s, n - 1, sends),
        );
    }
}

proof fn lemma_buses_downstream(s: MixerView, n: int)
    requires
        countable(s),
        0 <= n <= s.buses.len(),
    ensures
        all_downstream(s, bus_edges(s, n)),
    decreases n,
{
    if n > 0 {
        lemma_buses_downstream(s, n - 1);
        let id = s.buses[n - 1].id;
        bus_ids(s.buses).index_of_first_ensures(id);
        assert(bus_ids(s.buses)[n - 1] == id);
        let at = bus_node(s, id)->0;
        assert(graph_nodes(s)[at.0 as int] is Bus);
        assert(graph_nodes(s)[master_node(s).0 as int] == NodeKind::Master);
        lemma_join_downstream(s, bus_edges(s, n - 1), bus_edge(s, n - 1));
    }
}

proof fn lemma_fx_downstream(s: MixerView, n: int)
    requires
        countable(s),
        0 <= n <= s.fx.len(),
    ensures
        all_downstream(s, fx_edges(s, n)),
    decreases n,
{
    if n > 0 {
        lemma_fx_downstream(s, n - 1);
        let fx = s.fx[n - 1];
        let ids = crate::console::mix::fx_ids(s.fx);
        ids.index_of_first_ensures(fx.id);
        assert(ids[n - 1] == fx.id);
        bus_ids(s.buses).index_of_first_ensures(fx.input);
        assert(graph_nodes(s)[fx_node(s, fx.id).0 as int] is Fx);
        assert(graph_nodes(s)[master_node(s).0 as int] == NodeKind::Master);
        if bus_node(s, fx.input) is Some {
            let at = bus_node(s, fx.input)->0;
            assert(graph_nodes(s)[at.0 as int] is Bus);
        }
        lemma_join_downstream(s, fx_edges(s, n - 1), fx_edge(s, n - 1));
    }
}

/// Every edge of a document leads to a later node and a later stage, so no
/// document describes a feedback loop.
pub proof fn every_edge_leads_downstream(s: MixerView)
    requires
        countable(s),
    ensures
        all_downstream(s, graph_edges(s)),
{
    lemma_strips_downstream(s, s.strips.len() as int);
    lemma_buses_downstream(s, s.buses.len() as int);
    lemma_fx_downstream(s, s.fx.len() as int);
    let strips = strip_edges(s, s.strips.len() as int);
    let buses = bus_edges(s, s.buses.len() as int);
    lemma_join_downstream(s, strips, buses);
    lemma_join_downstream(s, strips + buses, fx_edges(s, s.fx.len() as int));
}

/// The graph of a document always has an order, namely that of its nodes:
/// `topo_order` never fails on it.
pub proof fn every_document_has_an_order(s: MixerView)
    requires
        countable(s),
    ensures
        valid_order(
            graph_nodes(s),
            graph_edges(s),
            Seq::new(graph_nodes(s).len(), |i: int| node(i)),
        ),
{
    every_edge_leads_downstream(s);
    let nodes = graph_nodes(s);
    let edges = graph_edges(s);
    let order = Seq::new(nodes.len(), |i: int| node(i));
    assert forall|k: int| 0 <= k < edges.len() implies precedes(
        order,
        (#[trigger] edges[k]).from,
        edges[k].to,
    ) by {
        let e = edges[k];
        assert(downstream(s, e));
        assert(order[e.from.0 as int] == e.from && order[e.to.0 as int] == e.to);
    }
}

/// The evaluation order of a document is the order of its nodes: each is ready when
/// those in front of it are placed, and none in front of it is left.
pub proof fn a_document_is_evaluated_in_node_order(s: MixerView)
    requires
        countable(s),
    ensures
        taken_in_turn(
            graph_nodes(s),
            graph_edges(s),
            Seq::new(graph_nodes(s).len(), |i: int| node(i)),
        ),
{
    every_edge_leads_downstream(s);
    let nodes = graph_nodes(s);
    let edges = graph_edges(s);
    let order = Seq::new(nodes.len(), |i: int| node(i));
    assert forall|k: int| 0 <= k < order.len() implies taken_next(
        nodes,
        edges,
        order.take(k),
        (#[trigger] order[k]).0 as int,
    ) by {
        let earlier = order.take(k);
        assert forall|m: int| 0 <= m < order.len() implies (#[trigger] placed(earlier, m) <==> m
            < k) by {
            if m < k {
                assert(earlier[m].0 == m);
            }
        }
        assert forall|e: int| 0 <= e < edges.len() && (#[trigger] edges[e]).to.0 == k implies placed(
            earlier,
            edges[e].from.0 as int,
        ) by {
            assert(downstream(s, edges[e]));
        }
    }
}

/// There is only one order in which the nodes are taken in turn, so the
/// evaluation order is a function of the graph.
pub proof fn the_order_is_determined(
    nodes: Seq<NodeKind>,
    edges: Seq<Edge>,
    a: Seq<NodeId>,
    b: Seq<NodeId>,
)
    requires
        valid_order(nodes, edges, a),
        valid_order(nodes, edges, b),
        taken_in_turn(nodes, edges, a),
        taken_in_turn(nodes, edges, b),
    ensures
        a == b,
{
    lemma_same_prefix(nodes, edges, a, b, a.len() as int);
    assert(a.take(a.len() as int) =~= a);
    assert(b.take(b.len() as int) =~= b);
}

proof fn lemma_same_prefix(
    nodes: Seq<NodeKind>,
    edges: Seq<Edge>,
    a: Seq<NodeId>,
    b: Seq<NodeId>,
    k: int,
)
    requires
        a.len() == b.len(),
        taken_in_turn(nodes, edges, a),
        taken_in_turn(nodes, edges, b),
        0 <= k <= a.len(),
    ensures
        a.take(k) == b.take(k),
    decreases k,
{
    if k > 0 {
        lemma_same_prefix(nodes, edges, a, b, k - 1);
        assert(taken_next(nodes, edges, a.take(k - 1), a[k - 1].0 as int));
        assert(taken_next(nodes, edges, b.take(k - 1), b[k - 1].0 as int));
        assert(a[k - 1].0 == b[k - 1].0);
        assert(a.take(k) =~= a.take(k - 1).push(a[k - 1]));
        assert(b.take(k) =~= b.take(k - 1).push(b[k - 1]));
    } else {
        assert(a.take(0) =~= b.take(0));
    }
}

} // verus!
