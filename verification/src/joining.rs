//! Why the ports of a net that the router has routed hang together.

use vstd::prelude::*;

use crate::board::node_port_of;
use crate::board_spec::{lemma_lane_port_use, NodePort};
use crate::chip_status::{spec_set, spec_set_lane};
use crate::connectivity::{is_connected, is_required_at, required_ports, walk};
use crate::edge::Edge;
use crate::error::Error;
use crate::invariants::{
    keeps, lemma_assign_ports, lemma_route, net_ids_distinct, node_ports_unshared,
};
use crate::lane::Lane;
use crate::net::Net;
use crate::net_id::NetId;
use crate::node::Node;
use crate::port::Port;
use crate::reach::{
    belongs, joined, lanes_apart, lemma_joined_across, lemma_joined_along, lemma_joined_stays,
    lemma_joined_twice, lemma_walk_visits_joined,
};
use crate::route::{
    assign_ports, bounces_at, close_lane, complete_edges, connecting, find_bounce, find_direct,
    first_hop, first_leaving, free_lane_at, grow, has_lane_from, has_lane_to, hops_at,
    initial_state, leaves_at, push_bounce, push_edge_net, resolve_bounce, resolve_bounces, route,
    route_net, route_nets, set_lanes, touching, PendingBounce, PendingEdgeNet, RouterState,
};
use crate::search::{first_index, lemma_first_index};
use crate::set::edge_set::{edges_in_order, first_edge, lemma_edges_from, lemma_first_edge_from};
use crate::set::lane_set::{first_free_lane, lemma_first_free_lane};
use crate::set::node_set::{ids_from, lemma_ids_from};

verus! {

/// The net has a port on the edge.
pub open spec fn has_port_on(status: Map<Port, NetId>, net_id: NetId, edge: Edge) -> bool {
    exists|port: Port| port.wf() && #[trigger] belongs(status, net_id, port) && port.spec_edge() == edge
}

/// The net has a port on the edge, and one on the other edge of the chip.
pub open spec fn ready(status: Map<Port, NetId>, net_id: NetId, edge: Edge) -> bool {
    edge.wf() && has_port_on(status, net_id, edge) && has_port_on(
        status,
        net_id,
        edge.spec_orthogonal(),
    )
}

/// The port lies on the chip of one of the edges.
pub open spec fn on_chips(port: Port, edges: Set<Edge>) -> bool {
    edges.contains(port.spec_edge()) || edges.contains(port.spec_edge().spec_orthogonal())
}

/// The ports of the net on the chips of the edges are all joined with each
/// other.
pub open spec fn clique<N: Node>(
    status: Map<Port, NetId>,
    node_ports: Seq<NodePort<N>>,
    lanes: Seq<Lane>,
    net_id: NetId,
    edges: Set<Edge>,
) -> bool {
    forall|p: Port, q: Port|
        p.wf() && q.wf() && #[trigger] belongs(status, net_id, p) && #[trigger] belongs(
            status,
            net_id,
            q,
        ) && on_chips(p, edges) && on_chips(q, edges) ==> joined(
            status,
            node_ports,
            lanes,
            net_id,
            p,
            q,
        )
}

/// The net has ports on both edges of each of the chips, and all its ports
/// on these chips are joined with each other.
pub open spec fn solid<N: Node>(
    status: Map<Port, NetId>,
    node_ports: Seq<NodePort<N>>,
    lanes: Seq<Lane>,
    net_id: NetId,
    edges: Set<Edge>,
) -> bool {
    &&& forall|edge: Edge| #[trigger] edges.contains(edge) ==> ready(status, net_id, edge)
    &&& clique(status, node_ports, lanes, net_id, edges)
}

/// The ports of a net on a chip are joined with each other once the net has
/// a port on both edges of the chip.
pub proof fn lemma_ready_is_solid<N: Node>(
    status: Map<Port, NetId>,
    node_ports: Seq<NodePort<N>>,
    lanes: Seq<Lane>,
    net_id: NetId,
    edge: Edge,
)
    requires
        ready(status, net_id, edge),
    ensures
        solid(status, node_ports, lanes, net_id, set![edge]),
{
    let edges = set![edge];
    let on_edge = choose|port: Port|
        port.wf() && #[trigger] belongs(status, net_id, port) && port.spec_edge() == edge;
    let across = choose|port: Port|
        port.wf() && #[trigger] belongs(status, net_id, port) && port.spec_edge()
            == edge.spec_orthogonal();
    assert forall|p: Port, q: Port|
        p.wf() && q.wf() && #[trigger] belongs(status, net_id, p) && #[trigger] belongs(
            status,
            net_id,
            q,
        ) && on_chips(p, edges) && on_chips(q, edges) implies joined(
        status,
        node_ports,
        lanes,
        net_id,
        p,
        q,
    ) by {
        assert(p.spec_edge() == edge || p.spec_edge() == edge.spec_orthogonal());
        assert(q.spec_edge() == edge || q.spec_edge() == edge.spec_orthogonal());
        if q.spec_edge() == p.spec_edge().spec_orthogonal() {
            lemma_joined_across(status, node_ports, lanes, net_id, p, q);
        } else {
            let by = if p.spec_edge() == edge {
                across
            } else {
                on_edge
            };
            lemma_joined_across(status, node_ports, lanes, net_id, p, by);
            lemma_joined_across(status, node_ports, lanes, net_id, by, q);
            lemma_joined_twice(status, node_ports, lanes, net_id, p, by, q);
        }
    }
}

/// Chips on which the ports of a net are joined stay so when more ports are
/// assigned.
pub proof fn lemma_solid_stays<N: Node>(
    earlier: Map<Port, NetId>,
    later: Map<Port, NetId>,
    node_ports: Seq<NodePort<N>>,
    lanes: Seq<Lane>,
    net_id: NetId,
    edges: Set<Edge>,
)
    requires
        keeps(earlier, later),
        solid(earlier, node_ports, lanes, net_id, edges),
    ensures
        solid(later, node_ports, lanes, net_id, edges),
{
    assert forall|edge: Edge| #[trigger] edges.contains(edge) implies ready(
        later,
        net_id,
        edge,
    ) by {
        lemma_ready_stays(earlier, later, net_id, edge);
    }
    assert forall|p: Port, q: Port|
        p.wf() && q.wf() && #[trigger] belongs(later, net_id, p) && #[trigger] belongs(
            later,
            net_id,
            q,
        ) && on_chips(p, edges) && on_chips(q, edges) implies joined(
        later,
        node_ports,
        lanes,
        net_id,
        p,
        q,
    ) by {
        // From `p` across the chip to a port that was there before, from there to a
        // port that was there before on the chip of `q`, across from `q`.
        let chip_p = if edges.contains(p.spec_edge()) {
            p.spec_edge()
        } else {
            p.spec_edge().spec_orthogonal()
        };
        let chip_q = if edges.contains(q.spec_edge()) {
            q.spec_edge()
        } else {
            q.spec_edge().spec_orthogonal()
        };
        assert(ready(earlier, net_id, chip_p));
        assert(ready(earlier, net_id, chip_q));
        let near = choose|port: Port|
            port.wf() && #[trigger] belongs(earlier, net_id, port) && port.spec_edge()
                == p.spec_edge().spec_orthogonal();
        let far = choose|port: Port|
            port.wf() && #[trigger] belongs(earlier, net_id, port) && port.spec_edge()
                == q.spec_edge().spec_orthogonal();
        assert(belongs(later, net_id, near) && belongs(later, net_id, far));
        lemma_joined_across(later, node_ports, lanes, net_id, p, near);
        assert(on_chips(near, edges) && on_chips(far, edges));
        assert(joined(earlier, node_ports, lanes, net_id, near, far));
        lemma_joined_stays(earlier, later, node_ports, lanes, net_id, near, far);
        lemma_joined_across(later, node_ports, lanes, net_id, far, q);
        lemma_joined_twice(later, node_ports, lanes, net_id, p, near, far);
        lemma_joined_twice(later, node_ports, lanes, net_id, p, far, q);
    }
}

/// A port that a net has on an edge stays when more ports are assigned.
pub proof fn lemma_has_port_on_stays(
    earlier: Map<Port, NetId>,
    later: Map<Port, NetId>,
    net_id: NetId,
    edge: Edge,
)
    requires
        keeps(earlier, later),
        has_port_on(earlier, net_id, edge),
    ensures
        has_port_on(later, net_id, edge),
{
    let port = choose|port: Port|
        port.wf() && #[trigger] belongs(earlier, net_id, port) && port.spec_edge() == edge;
    assert(belongs(later, net_id, port));
}

/// A chip with ports of the net on both edges stays so when more ports are
/// assigned.
pub proof fn lemma_ready_stays(
    earlier: Map<Port, NetId>,
    later: Map<Port, NetId>,
    net_id: NetId,
    edge: Edge,
)
    requires
        keeps(earlier, later),
        ready(earlier, net_id, edge),
    ensures
        ready(later, net_id, edge),
{
    lemma_has_port_on_stays(earlier, later, net_id, edge);
    lemma_has_port_on_stays(earlier, later, net_id, edge.spec_orthogonal());
}

/// Two ports of the net are joined with each other, the one on the chip of
/// the first edge, the other on the chip of the second.
pub open spec fn linked<N: Node>(
    status: Map<Port, NetId>,
    node_ports: Seq<NodePort<N>>,
    lanes: Seq<Lane>,
    net_id: NetId,
    a: Edge,
    b: Edge,
) -> bool {
    exists|p: Port, q: Port|
        #![trigger belongs(status, net_id, p), belongs(status, net_id, q)]
        is_link(status, node_ports, lanes, net_id, a, b, p, q)
}

/// The two ports of the net are joined with each other, the one on the chip
/// of the first edge, the other on the chip of the second.
pub open spec fn is_link<N: Node>(
    status: Map<Port, NetId>,
    node_ports: Seq<NodePort<N>>,
    lanes: Seq<Lane>,
    net_id: NetId,
    a: Edge,
    b: Edge,
    p: Port,
    q: Port,
) -> bool {
    &&& p.wf() && q.wf()
    &&& belongs(status, net_id, p) && belongs(status, net_id, q)
    &&& on_chips(p, set![a]) && on_chips(q, set![b])
    &&& joined(status, node_ports, lanes, net_id, p, q)
    &&& joined(status, node_ports, lanes, net_id, q, p)
}

/// What is linked stays linked when more ports are assigned.
pub proof fn lemma_linked_stays<N: Node>(
    earlier: Map<Port, NetId>,
    later: Map<Port, NetId>,
    node_ports: Seq<NodePort<N>>,
    lanes: Seq<Lane>,
    net_id: NetId,
    a: Edge,
    b: Edge,
)
    requires
        keeps(earlier, later),
        linked(earlier, node_ports, lanes, net_id, a, b),
    ensures
        linked(later, node_ports, lanes, net_id, a, b),
{
    let (p, q) = choose|p: Port, q: Port|
        #![trigger belongs(earlier, net_id, p), belongs(earlier, net_id, q)]
        is_link(earlier, node_ports, lanes, net_id, a, b, p, q);
    lemma_joined_stays(earlier, later, node_ports, lanes, net_id, p, q);
    lemma_joined_stays(earlier, later, node_ports, lanes, net_id, q, p);
    assert(belongs(later, net_id, p) && belongs(later, net_id, q));
    assert(is_link(later, node_ports, lanes, net_id, a, b, p, q));
}

/// Two groups of chips on which the ports of a net are joined, and a link
/// between a chip of the one and a chip of the other, make one such group.
pub proof fn lemma_solid_merge<N: Node>(
    status: Map<Port, NetId>,
    node_ports: Seq<NodePort<N>>,
    lanes: Seq<Lane>,
    net_id: NetId,
    first: Set<Edge>,
    second: Set<Edge>,
    a: Edge,
    b: Edge,
)
    requires
        solid(status, node_ports, lanes, net_id, first),
        solid(status, node_ports, lanes, net_id, second),
        first.contains(a),
        second.contains(b),
        linked(status, node_ports, lanes, net_id, a, b),
    ensures
        solid(status, node_ports, lanes, net_id, first.union(second)),
{
    let both = first.union(second);
    let (x, y) = choose|p: Port, q: Port|
        #![trigger belongs(status, net_id, p), belongs(status, net_id, q)]
        is_link(status, node_ports, lanes, net_id, a, b, p, q);
    assert(on_chips(x, first) && on_chips(y, second));
    assert forall|p: Port, q: Port|
        p.wf() && q.wf() && #[trigger] belongs(status, net_id, p) && #[trigger] belongs(
            status,
            net_id,
            q,
        ) && on_chips(p, both) && on_chips(q, both) implies joined(
        status,
        node_ports,
        lanes,
        net_id,
        p,
        q,
    ) by {
        if on_chips(p, first) && on_chips(q, second) {
            lemma_joined_twice(status, node_ports, lanes, net_id, p, x, y);
            lemma_joined_twice(status, node_ports, lanes, net_id, p, y, q);
        } else if on_chips(p, second) && on_chips(q, first) {
            lemma_joined_twice(status, node_ports, lanes, net_id, p, y, x);
            lemma_joined_twice(status, node_ports, lanes, net_id, p, x, q);
        }
    }
}

/// The two ends of a lane whose ends are assigned to the net link the chips
/// that they lie on.
pub proof fn lemma_lane_links<N: Node>(
    status: Map<Port, NetId>,
    node_ports: Seq<NodePort<N>>,
    lanes: Seq<Lane>,
    net_id: NetId,
    index: int,
    a: Edge,
    b: Edge,
)
    requires
        lanes_apart(lanes),
        lanes.len() <= 127,
        0 <= index < lanes.len(),
        belongs(status, net_id, lanes[index].0),
        belongs(status, net_id, lanes[index].1),
        on_chips(lanes[index].0, set![a]) && on_chips(lanes[index].1, set![b]) || on_chips(
            lanes[index].0,
            set![b],
        ) && on_chips(lanes[index].1, set![a]),
    ensures
        linked(status, node_ports, lanes, net_id, a, b),
{
    let lane = lanes[index];
    assert(lane.wf());
    lemma_joined_along(status, node_ports, lanes, net_id, index, lane.0);
    lemma_joined_along(status, node_ports, lanes, net_id, index, lane.1);
    if lane.0 == lane.1 {
        assert(is_link(status, node_ports, lanes, net_id, a, b, lane.0, lane.0));
    } else if on_chips(lane.0, set![a]) && on_chips(lane.1, set![b]) {
        assert(is_link(status, node_ports, lanes, net_id, a, b, lane.0, lane.1));
    } else {
        assert(is_link(status, node_ports, lanes, net_id, a, b, lane.1, lane.0));
    }
}

/// No port of the board is wired twice: the lanes have ports of the board
/// for ends, no port is an end of two lanes, and the nodes are wired to
/// ports of the board that no other node and no lane is wired to.
pub open spec fn sound_wiring<N: Node>(node_ports: Seq<NodePort<N>>, lanes: Seq<Lane>) -> bool {
    &&& lanes.len() <= 127
    &&& lanes_apart(lanes)
    &&& node_ports_unshared(node_ports, lanes)
    &&& forall|i: int| 0 <= i < node_ports.len() ==> (#[trigger] node_ports[i]).1.wf()
}

/// The longer list starts with the shorter one.
pub open spec fn grows_from<A>(longer: Seq<A>, shorter: Seq<A>) -> bool {
    &&& shorter.len() <= longer.len()
    &&& forall|i: int| 0 <= i < shorter.len() ==> #[trigger] longer[i] == shorter[i]
}

/// The node with the given identifier is wired to a port across from the
/// edge.
pub open spec fn is_needed_by<N: Node>(node_ports: Seq<NodePort<N>>, edge: Edge, id: int) -> bool {
    node_port_of(node_ports, id as u8) matches Some(port) && port.spec_edge().spec_orthogonal()
        == edge
}

/// The edges that a net of the given nodes needs connected: those across
/// from the first port of each node.
pub open spec fn needed_edges<N: Node>(node_ports: Seq<NodePort<N>>, ids: Set<int>) -> Set<Edge> {
    Set::new(|edge: Edge| exists|id: int| ids.contains(id) && #[trigger] is_needed_by(node_ports, edge, id))
}

/// The edge waits for a lane, for the net.
pub open spec fn waits(edge_nets: Seq<PendingEdgeNet>, net_id: NetId, edge: Edge) -> bool {
    exists|s: int|
        0 <= s < edge_nets.len() && (#[trigger] edge_nets[s]).edge == edge && edge_nets[s].net_id
            == net_id
}

/// A bounce of the net from the given edge waits.
pub open spec fn has_bounce_from(bounces: Seq<PendingBounce>, net_id: NetId, edge: Edge) -> bool {
    exists|t: int|
        0 <= t < bounces.len() && (#[trigger] bounces[t]).net_id == net_id && bounces[t].edge_a
            == edge
}

/// A bounce of the net to the given edge waits, from one of the connected
/// edges.
pub open spec fn bounced_from(
    bounces: Seq<PendingBounce>,
    net_id: NetId,
    connected: Set<Edge>,
    edge: Edge,
) -> bool {
    exists|t: int|
        0 <= t < bounces.len() && (#[trigger] bounces[t]).net_id == net_id && bounces[t].edge_b
            == edge && connected.contains(bounces[t].edge_a)
}

/// The connected edges are joined with each other; or there is only the
/// first edge, and something is under way that will give it a port.
pub open spec fn home_is_solid<N: Node>(
    node_ports: Seq<NodePort<N>>,
    lanes: Seq<Lane>,
    state: RouterState,
    net_id: NetId,
    start: Edge,
    connected: Set<Edge>,
    more_to_come: bool,
) -> bool {
    ||| solid(state.status, node_ports, lanes, net_id, connected)
    ||| ((forall|edge: Edge| #[trigger] connected.contains(edge) ==> edge == start) && (more_to_come
        || waits(state.edge_nets, net_id, start) || has_bounce_from(state.bounces, net_id, start)))
}

/// What holds while the edges of a net are joined to the connected ones:
/// the net has a port across from each of its edges; the connected edges are
/// joined with each other; and each edge of the net is still unconnected, or
/// connected, or waits for a bounce from a connected edge.
pub open spec fn joining<N: Node>(
    node_ports: Seq<NodePort<N>>,
    lanes: Seq<Lane>,
    state: RouterState,
    net_id: NetId,
    edges: Set<Edge>,
    start: Edge,
    unconnected: Set<Edge>,
    connected: Set<Edge>,
) -> bool {
    &&& unconnected.finite()
    &&& unconnected.subset_of(edges)
    &&& connected.subset_of(edges)
    &&& connected.contains(start)
    &&& forall|edge: Edge| #[trigger]
        edges.contains(edge) ==> edge.wf() && has_port_on(
            state.status,
            net_id,
            edge.spec_orthogonal(),
        )
    &&& home_is_solid(
        node_ports,
        lanes,
        state,
        net_id,
        start,
        connected,
        unconnected.len() > 0,
    )
    &&& forall|edge: Edge| #[trigger]
        edges.contains(edge) ==> unconnected.contains(edge) || connected.contains(edge)
            || bounced_from(state.bounces, net_id, connected, edge)
}

/// What holds of a net once its edges were gone through: as `joining`,
/// with no edge left unconnected.
pub open spec fn gone_through<N: Node>(
    node_ports: Seq<NodePort<N>>,
    lanes: Seq<Lane>,
    state: RouterState,
    net_id: NetId,
    edges: Set<Edge>,
    start: Edge,
    connected: Set<Edge>,
) -> bool {
    joining(node_ports, lanes, state, net_id, edges, start, Set::empty(), connected)
}

/// The direct lane that is found connects one of the connected edges with
/// the unconnected edge that is found with it.
pub proof fn lemma_find_direct_connects(
    lanes: Seq<Lane>,
    available: Set<int>,
    unconnected: Set<Edge>,
    connected: Set<Edge>,
) -> (from: Edge)
    requires
        find_direct(lanes, available, edges_in_order(unconnected), edges_in_order(connected))
            is Some,
    ensures
        ({
            let found = find_direct(
                lanes,
                available,
                edges_in_order(unconnected),
                edges_in_order(connected),
            )->0;
            &&& unconnected.contains(found.0)
            &&& connected.contains(from)
            &&& 0 <= found.1 < lanes.len()
            &&& lanes[found.1].spec_connects(from, found.0)
        }),
{
    let some = edges_in_order(unconnected);
    let others = edges_in_order(connected);
    lemma_edges_from(unconnected, 0);
    lemma_edges_from(connected, 0);
    let outer = has_lane_from(lanes, available, some, others);
    lemma_first_index(0, some.len() as int, outer);
    let i = first_index(0, some.len() as int, outer)->0;
    let inner = has_lane_to(lanes, available, others, some[i]);
    lemma_first_index(0, others.len() as int, inner);
    let j = first_index(0, others.len() as int, inner)->0;
    lemma_first_free_lane(lanes, available, connecting(others[j], some[i]));
    others[j]
}

/// Taking a lane for a net assigns both its ends to the net, and keeps what
/// was assigned.
pub proof fn lemma_close_lane(lanes: Seq<Lane>, state: RouterState, index: int, net_id: NetId)
    requires
        0 <= index < lanes.len(),
    ensures
        close_lane(lanes, state, index, net_id) matches Ok(next) ==> {
            &&& keeps(state.status, next.status)
            &&& belongs(next.status, net_id, lanes[index].0)
            &&& belongs(next.status, net_id, lanes[index].1)
            &&& next.edge_nets == state.edge_nets
            &&& next.bounces == state.bounces
        },
{
    crate::invariants::lemma_set_lane(state.status, lanes, index, net_id);
}

/// A direct lane joins the unconnected edge that it reaches to the
/// connected ones.
proof fn lemma_joining_after_lane<N: Node>(
    node_ports: Seq<NodePort<N>>,
    lanes: Seq<Lane>,
    state: RouterState,
    next: RouterState,
    net_id: NetId,
    edges: Set<Edge>,
    start: Edge,
    unconnected: Set<Edge>,
    connected: Set<Edge>,
    reached: Edge,
    from: Edge,
    index: int,
)
    requires
        sound_wiring(node_ports, lanes),
        joining(node_ports, lanes, state, net_id, edges, start, unconnected, connected),
        unconnected.contains(reached),
        connected.contains(from),
        0 <= index < lanes.len(),
        lanes[index].spec_connects(from, reached),
        close_lane(lanes, state, index, net_id) == Ok::<RouterState, Error>(next),
    ensures
        joining(
            node_ports,
            lanes,
            next,
            net_id,
            edges,
            start,
            unconnected.remove(reached),
            connected.insert(reached),
        ),
{
    lemma_close_lane(lanes, state, index, net_id);
    let lane = lanes[index];
    let status = next.status;
    assert(lane.wf());
    assert forall|edge: Edge| #[trigger] edges.contains(edge) implies edge.wf() && has_port_on(
        status,
        net_id,
        edge.spec_orthogonal(),
    ) by {
        lemma_has_port_on_stays(state.status, status, net_id, edge.spec_orthogonal());
    }
    // Both edges have a port of the net now, and across from both lies a node.
    assert(has_port_on(status, net_id, from) && has_port_on(status, net_id, reached)) by {
        assert(belongs(status, net_id, lane.0) && belongs(status, net_id, lane.1));
    }
    assert(edges.contains(from) && edges.contains(reached));
    assert(from.spec_orthogonal().spec_orthogonal() == from);
    assert(ready(status, net_id, from) && ready(status, net_id, reached));
    lemma_ready_is_solid(status, node_ports, lanes, net_id, reached);
    if solid(state.status, node_ports, lanes, net_id, connected) {
        lemma_solid_stays(state.status, status, node_ports, lanes, net_id, connected);
    } else {
        lemma_ready_is_solid(status, node_ports, lanes, net_id, from);
        assert(connected =~= set![from]);
    }
    lemma_lane_links(status, node_ports, lanes, net_id, index, from, reached);
    lemma_solid_merge(
        status,
        node_ports,
        lanes,
        net_id,
        connected,
        set![reached],
        from,
        reached,
    );
    assert(connected.insert(reached) =~= connected.union(set![reached]));
    assert forall|edge: Edge| #[trigger] edges.contains(edge) implies unconnected.remove(
        reached,
    ).contains(edge) || connected.insert(reached).contains(edge) || bounced_from(
        next.bounces,
        net_id,
        connected.insert(reached),
        edge,
    ) by {
        if bounced_from(state.bounces, net_id, connected, edge) {
            let t = choose|t: int|
                0 <= t < state.bounces.len() && (#[trigger] state.bounces[t]).net_id == net_id
                    && state.bounces[t].edge_b == edge && connected.contains(
                    state.bounces[t].edge_a,
                );
            assert(connected.insert(reached).contains(next.bounces[t].edge_a));
        }
    }
}

/// An edge that no direct lane reaches waits for a bounce from a connected
/// edge.
proof fn lemma_joining_after_bounce<N: Node>(
    node_ports: Seq<NodePort<N>>,
    lanes: Seq<Lane>,
    state: RouterState,
    next: RouterState,
    net_id: NetId,
    edges: Set<Edge>,
    start: Edge,
    unconnected: Set<Edge>,
    connected: Set<Edge>,
    edge_a: Edge,
    edge_b: Edge,
)
    requires
        joining(node_ports, lanes, state, net_id, edges, start, unconnected, connected),
        connected.contains(edge_a),
        unconnected.contains(edge_b),
        push_bounce(state, PendingBounce { edge_a, edge_b, net_id }) == Ok::<RouterState, Error>(
            next,
        ),
    ensures
        joining(
            node_ports,
            lanes,
            next,
            net_id,
            edges,
            start,
            unconnected.remove(edge_b),
            connected,
        ),
        grows_from(next.bounces, state.bounces),
{
    let last = state.bounces.len() as int;
    assert(next.bounces[last] == (PendingBounce { edge_a, edge_b, net_id }));
    if !solid(state.status, node_ports, lanes, net_id, connected) {
        assert(edge_a == start);
        assert(has_bounce_from(next.bounces, net_id, start));
    }
    assert forall|edge: Edge| #[trigger] edges.contains(edge) implies unconnected.remove(
        edge_b,
    ).contains(edge) || connected.contains(edge) || bounced_from(
        next.bounces,
        net_id,
        connected,
        edge,
    ) by {
        if edge == edge_b {
            assert(bounced_from(next.bounces, net_id, connected, edge));
        } else if bounced_from(state.bounces, net_id, connected, edge) {
            let t = choose|t: int|
                0 <= t < state.bounces.len() && (#[trigger] state.bounces[t]).net_id == net_id
                    && state.bounces[t].edge_b == edge && connected.contains(
                    state.bounces[t].edge_a,
                );
            assert(next.bounces[t] == state.bounces[t]);
        }
    }
}

/// Joining the edges of a net leaves each of them connected, or waiting for
/// a bounce from a connected edge; and the connected edges are joined with
/// each other.
pub proof fn lemma_grow_joins<N: Node>(
    node_ports: Seq<NodePort<N>>,
    lanes: Seq<Lane>,
    state: RouterState,
    unconnected: Set<Edge>,
    connected: Set<Edge>,
    net_id: NetId,
    edges: Set<Edge>,
    start: Edge,
) -> (home: Set<Edge>)
    requires
        sound_wiring(node_ports, lanes),
        joining(node_ports, lanes, state, net_id, edges, start, unconnected, connected),
    ensures
        grow(lanes, state, unconnected, connected, net_id) matches Ok(last) ==> {
            &&& gone_through(node_ports, lanes, last, net_id, edges, start, home)
            &&& keeps(state.status, last.status)
            &&& last.edge_nets == state.edge_nets
            &&& grows_from(last.bounces, state.bounces)
        },
    decreases unconnected.len(),
{
    if unconnected.len() == 0 {
        assert(unconnected =~= Set::<Edge>::empty());
        connected
    } else {
        match find_direct(
            lanes,
            state.available,
            edges_in_order(unconnected),
            edges_in_order(connected),
        ) {
            Some((reached, index)) => {
                let from = lemma_find_direct_connects(
                    lanes,
                    state.available,
                    unconnected,
                    connected,
                );
                lemma_close_lane(lanes, state, index, net_id);
                match close_lane(lanes, state, index, net_id) {
                    Ok(next) => {
                        lemma_joining_after_lane(
                            node_ports,
                            lanes,
                            state,
                            next,
                            net_id,
                            edges,
                            start,
                            unconnected,
                            connected,
                            reached,
                            from,
                            index,
                        );
                        let home = lemma_grow_joins(
                            node_ports,
                            lanes,
                            next,
                            unconnected.remove(reached),
                            connected.insert(reached),
                            net_id,
                            edges,
                            start,
                        );
                        home
                    },
                    Err(_) => connected,
                }
            },
            None => {
                lemma_first_edge_from(connected, 0);
                lemma_first_edge_from(unconnected, 0);
                match (first_edge(connected), first_edge(unconnected)) {
                    (Some(edge_a), Some(edge_b)) => {
                        match push_bounce(state, PendingBounce { edge_a, edge_b, net_id }) {
                            Ok(next) => {
                                lemma_joining_after_bounce(
                                    node_ports,
                                    lanes,
                                    state,
                                    next,
                                    net_id,
                                    edges,
                                    start,
                                    unconnected,
                                    connected,
                                    edge_a,
                                    edge_b,
                                );
                                let home = lemma_grow_joins(
                                    node_ports,
                                    lanes,
                                    next,
                                    unconnected.remove(edge_b),
                                    connected,
                                    net_id,
                                    edges,
                                    start,
                                );
                                home
                            },
                            Err(_) => connected,
                        }
                    },
                    _ => {
                        // There is a connected edge, and there is an unconnected one.
                        assert(connected.contains(start));
                        assert(start.wf());
                        start.lemma_address();
                        let other = unconnected.choose();
                        assert(unconnected.contains(other) && edges.contains(other));
                        other.lemma_address();
                        connected
                    },
                }
            },
        }
    }
}

/// The edges that come of assigning the ports of a net's nodes are those
/// across from the ports, and the net then has the ports.
pub proof fn lemma_assign_edges<N: Node>(
    node_ports: Seq<NodePort<N>>,
    lanes: Seq<Lane>,
    ids: Seq<int>,
    k: int,
    net_id: NetId,
    status: Map<Port, NetId>,
    edges: Set<Edge>,
)
    requires
        sound_wiring(node_ports, lanes),
        0 <= k,
        edges.finite(),
    ensures
        assign_ports(node_ports, ids, k, net_id, status, edges) matches Ok((next, found)) ==> {
            &&& found.finite()
            &&& keeps(status, next)
            &&& forall|edge: Edge| #[trigger]
                found.contains(edge) <==> edges.contains(edge) || exists|j: int|
                    k <= j < ids.len() && #[trigger] is_needed_by(node_ports, edge, ids[j])
            &&& forall|j: int|
                k <= j < ids.len() ==> (#[trigger] node_port_of(node_ports, ids[j] as u8)
                    matches Some(port) && port.wf() && belongs(next, net_id, port))
        },
    decreases ids.len() - k,
{
    lemma_assign_ports(node_ports, ids, k, net_id, status, edges);
    if k < ids.len() {
        if let Some(port) = node_port_of(node_ports, ids[k] as u8) {
            lemma_first_index(
                0,
                node_ports.len() as int,
                crate::board::is_port_of(node_ports, ids[k] as u8),
            );
            assert(port.wf());
            if let Ok(assigned) = spec_set(status, port, net_id) {
                let more = edges.insert(port.spec_edge().spec_orthogonal());
                lemma_assign_edges(node_ports, lanes, ids, k + 1, net_id, assigned, more);
                if let Ok((next, found)) = assign_ports(
                    node_ports,
                    ids,
                    k + 1,
                    net_id,
                    assigned,
                    more,
                ) {
                    assert forall|edge: Edge| #[trigger]
                        found.contains(edge) <==> edges.contains(edge) || exists|j: int|
                            k <= j < ids.len() && #[trigger] is_needed_by(
                                node_ports,
                                edge,
                                ids[j],
                            ) by {
                        if found.contains(edge) && !edges.contains(edge) {
                            if more.contains(edge) {
                                assert(is_needed_by(node_ports, edge, ids[k]));
                            } else {
                                let j = choose|j: int|
                                    k + 1 <= j < ids.len() && #[trigger] is_needed_by(
                                        node_ports,
                                        edge,
                                        ids[j],
                                    );
                                assert(k <= j);
                            }
                        }
                        if exists|j: int|
                            k <= j < ids.len() && #[trigger] is_needed_by(
                                node_ports,
                                edge,
                                ids[j],
                            ) {
                            let j = choose|j: int|
                                k <= j < ids.len() && #[trigger] is_needed_by(
                                    node_ports,
                                    edge,
                                    ids[j],
                                );
                            if j == k {
                                assert(more.contains(edge));
                            } else {
                                assert(k + 1 <= j);
                            }
                        }
                    }
                    assert forall|j: int| k <= j < ids.len() implies (#[trigger] node_port_of(
                        node_ports,
                        ids[j] as u8,
                    ) matches Some(found_port) && found_port.wf() && belongs(
                        next,
                        net_id,
                        found_port,
                    )) by {
                        if j == k {
                            assert(assigned.dom().contains(port));
                        } else {
                            assert(k + 1 <= j);
                        }
                    }
                }
            }
        }
    }
}

/// What holds of a net stays so when the router goes on: when more ports
/// are assigned, and more edges and bounces wait.
pub proof fn lemma_gone_through_stays<N: Node>(
    node_ports: Seq<NodePort<N>>,
    lanes: Seq<Lane>,
    earlier: RouterState,
    later: RouterState,
    net_id: NetId,
    edges: Set<Edge>,
    start: Edge,
    home: Set<Edge>,
)
    requires
        gone_through(node_ports, lanes, earlier, net_id, edges, start, home),
        keeps(earlier.status, later.status),
        grows_from(later.edge_nets, earlier.edge_nets),
        grows_from(later.bounces, earlier.bounces),
    ensures
        gone_through(node_ports, lanes, later, net_id, edges, start, home),
{
    assert forall|edge: Edge| #[trigger] edges.contains(edge) implies edge.wf() && has_port_on(
        later.status,
        net_id,
        edge.spec_orthogonal(),
    ) by {
        lemma_has_port_on_stays(earlier.status, later.status, net_id, edge.spec_orthogonal());
    }
    if solid(earlier.status, node_ports, lanes, net_id, home) {
        lemma_solid_stays(earlier.status, later.status, node_ports, lanes, net_id, home);
    } else {
        if waits(earlier.edge_nets, net_id, start) {
            let s = choose|s: int|
                0 <= s < earlier.edge_nets.len() && (#[trigger] earlier.edge_nets[s]).edge == start
                    && earlier.edge_nets[s].net_id == net_id;
            assert(later.edge_nets[s] == earlier.edge_nets[s]);
        } else {
            let t = choose|t: int|
                0 <= t < earlier.bounces.len() && (#[trigger] earlier.bounces[t]).net_id == net_id
                    && earlier.bounces[t].edge_a == start;
            assert(later.bounces[t] == earlier.bounces[t]);
        }
    }
    assert forall|edge: Edge| #[trigger] edges.contains(edge) implies home.contains(edge)
        || bounced_from(later.bounces, net_id, home, edge) by {
        if !home.contains(edge) {
            let t = choose|t: int|
                0 <= t < earlier.bounces.len() && (#[trigger] earlier.bounces[t]).net_id == net_id
                    && earlier.bounces[t].edge_b == edge && home.contains(
                    earlier.bounces[t].edge_a,
                );
            assert(later.bounces[t] == earlier.bounces[t]);
        }
    }
}

/// The first of the edges that the net needs connected.
pub open spec fn first_needed<N: Node>(node_ports: Seq<NodePort<N>>, ids: Set<int>) -> Edge {
    first_edge(needed_edges(node_ports, ids))->0
}

/// Routing one net, as far as direct lanes go, leaves each edge that the
/// net needs connected, or waiting for a bounce from a connected edge; and
/// the connected edges are joined with each other.
pub proof fn lemma_route_net_joins<N: Node>(
    node_ports: Seq<NodePort<N>>,
    lanes: Seq<Lane>,
    state: RouterState,
    net: Net<N>,
) -> (home: Set<Edge>)
    requires
        sound_wiring(node_ports, lanes),
    ensures
        route_net(node_ports, lanes, state, net) matches Ok(next) ==> {
            &&& keeps(state.status, next.status)
            &&& grows_from(next.edge_nets, state.edge_nets)
            &&& grows_from(next.bounces, state.bounces)
            &&& net.nodes.ids() != Set::<int>::empty() ==> gone_through(
                node_ports,
                lanes,
                next,
                net.id,
                needed_edges(node_ports, net.nodes.ids()),
                first_needed(node_ports, net.nodes.ids()),
                home,
            )
        },
{
    let ids = ids_from(net.nodes.ids(), 0);
    let needed = needed_edges(node_ports, net.nodes.ids());
    lemma_ids_from(net.nodes.ids(), 0);
    lemma_assign_edges(node_ports, lanes, ids, 0, net.id, state.status, Set::empty());
    match assign_ports(node_ports, ids, 0, net.id, state.status, Set::empty()) {
        Ok((status, edges)) => {
            let begun = RouterState { status, ..state };
            assert forall|edge: Edge| edges.contains(edge) == needed.contains(edge) by {
                if edges.contains(edge) {
                    let j = choose|j: int|
                        0 <= j < ids.len() && #[trigger] is_needed_by(node_ports, edge, ids[j]);
                    assert(net.nodes.ids().contains(ids[j]));
                }
                if needed.contains(edge) {
                    let id = choose|id: int|
                        net.nodes.ids().contains(id) && #[trigger] is_needed_by(
                            node_ports,
                            edge,
                            id,
                        );
                    assert(0 <= id < 128);
                    let j = choose|j: int| 0 <= j < ids.len() && ids[j] == id;
                    assert(is_needed_by(node_ports, edge, ids[j]));
                }
            }
            assert(edges =~= needed);
            assert forall|edge: Edge| #[trigger] needed.contains(edge) implies edge.wf()
                && has_port_on(status, net.id, edge.spec_orthogonal()) by {
                let j = choose|j: int|
                    0 <= j < ids.len() && #[trigger] is_needed_by(node_ports, edge, ids[j]);
                let port = node_port_of(node_ports, ids[j] as u8)->0;
                assert(port.wf() && belongs(status, net.id, port));
                assert(port.spec_edge() == edge.spec_orthogonal());
            }
            lemma_first_edge_from(needed, 0);
            if net.nodes.ids() != Set::<int>::empty() {
                let id = choose|id: int| net.nodes.ids().contains(id);
                assert(net.nodes.ids().contains(id)) by {
                    if forall|id: int| !net.nodes.ids().contains(id) {
                        assert(net.nodes.ids() =~= Set::<int>::empty());
                    }
                }
                assert(0 <= id < 128);
                let j = choose|j: int| 0 <= j < ids.len() && ids[j] == id;
                let port = node_port_of(node_ports, ids[j] as u8)->0;
                let edge = port.spec_edge().spec_orthogonal();
                assert(is_needed_by(node_ports, edge, ids[j]));
                assert(needed.contains(edge));
                edge.lemma_address();
                assert(first_edge(needed) is Some);
            }
            match first_edge(needed) {
                None => Set::empty(),
                Some(start) => {
                    let rest = needed.remove(start);
                    if rest == Set::<Edge>::empty() {
                        let item = PendingEdgeNet { edge: start, net_id: net.id };
                        if let Ok(next) = push_edge_net(begun, item) {
                            let last = begun.edge_nets.len() as int;
                            assert(next.edge_nets[last] == item);
                            assert(waits(next.edge_nets, net.id, start));
                            assert forall|edge: Edge| #[trigger] needed.contains(edge) implies edge
                                == start by {
                                if edge != start {
                                    assert(rest.contains(edge));
                                }
                            }
                        }
                        set![start]
                    } else {
                        assert(rest.len() > 0) by {
                            if rest.len() == 0 {
                                rest.lemma_len0_is_empty();
                            }
                        }
                        assert(joining(
                            node_ports,
                            lanes,
                            begun,
                            net.id,
                            needed,
                            start,
                            rest,
                            set![start],
                        ));
                        lemma_grow_joins(
                            node_ports,
                            lanes,
                            begun,
                            rest,
                            set![start],
                            net.id,
                            needed,
                            start,
                        )
                    }
                },
            }
        },
        Err(_) => Set::empty(),
    }
}

/// Routing the nets, as far as direct lanes go, leaves each edge that a net
/// needs connected, or waiting for a bounce from a connected edge; and the
/// connected edges of each net are joined with each other.
pub proof fn lemma_route_nets_joins<N: Node>(
    node_ports: Seq<NodePort<N>>,
    lanes: Seq<Lane>,
    nets: Seq<Net<N>>,
    k: int,
    state: RouterState,
) -> (homes: Seq<Set<Edge>>)
    requires
        sound_wiring(node_ports, lanes),
        0 <= k,
    ensures
        route_nets(node_ports, lanes, nets, k, state) matches Ok(last) ==> {
            &&& homes.len() == nets.len()
            &&& keeps(state.status, last.status)
            &&& grows_from(last.edge_nets, state.edge_nets)
            &&& grows_from(last.bounces, state.bounces)
            &&& forall|j: int|
                k <= j < nets.len() && (#[trigger] nets[j]).nodes.ids() != Set::<int>::empty()
                    ==> gone_through(
                    node_ports,
                    lanes,
                    last,
                    nets[j].id,
                    needed_edges(node_ports, nets[j].nodes.ids()),
                    first_needed(node_ports, nets[j].nodes.ids()),
                    homes[j],
                )
        },
    decreases nets.len() - k,
{
    if k >= nets.len() {
        Seq::new(nets.len(), |j: int| Set::<Edge>::empty())
    } else {
        let home = lemma_route_net_joins(node_ports, lanes, state, nets[k]);
        match route_net(node_ports, lanes, state, nets[k]) {
            Ok(next) => {
                let homes = lemma_route_nets_joins(node_ports, lanes, nets, k + 1, next);
                match route_nets(node_ports, lanes, nets, k + 1, next) {
                    Ok(last) => {
                        if nets[k].nodes.ids() != Set::<int>::empty() {
                            lemma_gone_through_stays(
                                node_ports,
                                lanes,
                                next,
                                last,
                                nets[k].id,
                                needed_edges(node_ports, nets[k].nodes.ids()),
                                first_needed(node_ports, nets[k].nodes.ids()),
                                home,
                            );
                        }
                        homes.update(k, home)
                    },
                    Err(_) => homes,
                }
            },
            Err(_) => Seq::empty(),
        }
    }
}

/// The bounce is resolved: each of its two edges has a port of the net, or
/// waits for a lane; and the chips of the two edges are linked.
pub open spec fn bounce_done<N: Node>(
    node_ports: Seq<NodePort<N>>,
    lanes: Seq<Lane>,
    state: RouterState,
    bounce: PendingBounce,
) -> bool {
    &&& has_port_on(state.status, bounce.net_id, bounce.edge_a) || waits(
        state.edge_nets,
        bounce.net_id,
        bounce.edge_a,
    )
    &&& has_port_on(state.status, bounce.net_id, bounce.edge_b) || waits(
        state.edge_nets,
        bounce.net_id,
        bounce.edge_b,
    )
    &&& linked(state.status, node_ports, lanes, bounce.net_id, bounce.edge_a, bounce.edge_b)
}

/// A bounce that is resolved stays so when the router goes on.
pub proof fn lemma_bounce_done_stays<N: Node>(
    node_ports: Seq<NodePort<N>>,
    lanes: Seq<Lane>,
    earlier: RouterState,
    later: RouterState,
    bounce: PendingBounce,
)
    requires
        bounce_done(node_ports, lanes, earlier, bounce),
        keeps(earlier.status, later.status),
        grows_from(later.edge_nets, earlier.edge_nets),
    ensures
        bounce_done(node_ports, lanes, later, bounce),
{
    lemma_port_or_wait_stays(earlier, later, bounce.net_id, bounce.edge_a);
    lemma_port_or_wait_stays(earlier, later, bounce.net_id, bounce.edge_b);
    lemma_linked_stays(
        earlier.status,
        later.status,
        node_ports,
        lanes,
        bounce.net_id,
        bounce.edge_a,
        bounce.edge_b,
    );
}

/// An edge that has a port of the net, or waits for a lane, stays so when
/// the router goes on.
pub proof fn lemma_port_or_wait_stays(
    earlier: RouterState,
    later: RouterState,
    net_id: NetId,
    edge: Edge,
)
    requires
        has_port_on(earlier.status, net_id, edge) || waits(earlier.edge_nets, net_id, edge),
        keeps(earlier.status, later.status),
        grows_from(later.edge_nets, earlier.edge_nets),
    ensures
        has_port_on(later.status, net_id, edge) || waits(later.edge_nets, net_id, edge),
{
    if has_port_on(earlier.status, net_id, edge) {
        lemma_has_port_on_stays(earlier.status, later.status, net_id, edge);
    } else {
        let s = choose|s: int|
            0 <= s < earlier.edge_nets.len() && (#[trigger] earlier.edge_nets[s]).edge == edge
                && earlier.edge_nets[s].net_id == net_id;
        assert(later.edge_nets[s] == earlier.edge_nets[s]);
    }
}

/// The lane of a hop leaves a port of the edge, and arrives on the target.
pub proof fn lemma_first_hop_leads<N: Node>(
    node_ports: Seq<NodePort<N>>,
    lanes: Seq<Lane>,
    available: Set<int>,
    edge: Edge,
    target: Edge,
) -> (port: Port)
    requires
        lanes.len() <= 127,
        edge.wf(),
        first_hop(node_ports, lanes, available, edge, target) is Some,
    ensures
        ({
            let index = first_hop(node_ports, lanes, available, edge, target)->0;
            &&& port.wf()
            &&& port.spec_edge() == edge
            &&& 0 <= index < lanes.len()
            &&& lanes[index].has_end(port)
            &&& lanes[index].spec_opposite(port).spec_edge() == target
        }),
{
    let count = edge.spec_dimension().spec_port_count();
    lemma_first_index(0, count, hops_at(node_ports, lanes, available, edge, target));
    let k = first_index(0, count, hops_at(node_ports, lanes, available, edge, target))->0;
    let port = edge.spec_port(k);
    lemma_lane_port_use(node_ports, lanes, lanes.len() as int, port);
    port
}

/// The lane that leaves an edge has a port of the edge for an end.
pub proof fn lemma_first_leaving_leads<N: Node>(
    node_ports: Seq<NodePort<N>>,
    lanes: Seq<Lane>,
    available: Set<int>,
    edge: Edge,
) -> (port: Port)
    requires
        lanes.len() <= 127,
        edge.wf(),
        first_leaving(node_ports, lanes, available, edge) is Some,
    ensures
        ({
            let index = first_leaving(node_ports, lanes, available, edge)->0;
            &&& port.wf()
            &&& port.spec_edge() == edge
            &&& 0 <= index < lanes.len()
            &&& lanes[index].has_end(port)
        }),
{
    let count = edge.spec_dimension().spec_port_count();
    lemma_first_index(0, count, leaves_at(node_ports, lanes, available, edge));
    let k = first_index(0, count, leaves_at(node_ports, lanes, available, edge))->0;
    let port = edge.spec_port(k);
    lemma_lane_port_use(node_ports, lanes, lanes.len() as int, port);
    port
}

/// Assigning the ends of several lanes to a net gives the net all the ends.
pub proof fn lemma_set_lanes_assigns(
    lanes: Seq<Lane>,
    indices: Seq<int>,
    k: int,
    net_id: NetId,
    status: Map<Port, NetId>,
)
    requires
        0 <= k,
        forall|i: int| 0 <= i < indices.len() ==> 0 <= #[trigger] indices[i] < lanes.len(),
    ensures
        set_lanes(lanes, indices, k, net_id, status) matches Ok(next) ==> {
            &&& keeps(status, next)
            &&& forall|j: int|
                k <= j < indices.len() ==> belongs(next, net_id, lanes[#[trigger] indices[j]].0)
                    && belongs(next, net_id, lanes[indices[j]].1)
        },
    decreases indices.len() - k,
{
    if k < indices.len() {
        crate::invariants::lemma_set_lane(status, lanes, indices[k], net_id);
        if let Ok(first) = spec_set_lane(status, lanes[indices[k]], net_id) {
            lemma_set_lanes_assigns(lanes, indices, k + 1, net_id, first);
            if let Ok(next) = set_lanes(lanes, indices, k + 1, net_id, first) {
                assert(belongs(first, net_id, lanes[indices[k]].0));
                assert(belongs(first, net_id, lanes[indices[k]].1));
                assert forall|j: int| k <= j < indices.len() implies belongs(
                    next,
                    net_id,
                    lanes[#[trigger] indices[j]].0,
                ) && belongs(next, net_id, lanes[indices[j]].1) by {
                    if j > k {
                        assert(k + 1 <= j);
                    }
                }
                crate::invariants::lemma_keeps_twice(status, first, next);
            }
        }
    }
}

/// The walk goes along a lane of the net in both directions.
pub proof fn lemma_along_both_ways<N: Node>(
    status: Map<Port, NetId>,
    node_ports: Seq<NodePort<N>>,
    lanes: Seq<Lane>,
    net_id: NetId,
    index: int,
    port: Port,
)
    requires
        lanes_apart(lanes),
        lanes.len() <= 127,
        0 <= index < lanes.len(),
        lanes[index].has_end(port),
        belongs(status, net_id, lanes[index].0),
        belongs(status, net_id, lanes[index].1),
    ensures
        lanes[index].spec_opposite(port).wf(),
        belongs(status, net_id, port),
        belongs(status, net_id, lanes[index].spec_opposite(port)),
        joined(status, node_ports, lanes, net_id, port, lanes[index].spec_opposite(port)),
        joined(status, node_ports, lanes, net_id, lanes[index].spec_opposite(port), port),
{
    let far = lanes[index].spec_opposite(port);
    assert(lanes[index].wf());
    lemma_joined_along(status, node_ports, lanes, net_id, index, port);
    lemma_joined_along(status, node_ports, lanes, net_id, index, far);
    assert(lanes[index].spec_opposite(far) == port || far == port);
}

/// The walk goes across a chip between two ports of the net on its two
/// edges, in both directions.
pub proof fn lemma_across_both_ways<N: Node>(
    status: Map<Port, NetId>,
    node_ports: Seq<NodePort<N>>,
    lanes: Seq<Lane>,
    net_id: NetId,
    p: Port,
    q: Port,
)
    requires
        p.wf(),
        q.wf(),
        belongs(status, net_id, p),
        belongs(status, net_id, q),
        q.spec_edge() == p.spec_edge().spec_orthogonal(),
    ensures
        joined(status, node_ports, lanes, net_id, p, q),
        joined(status, node_ports, lanes, net_id, q, p),
{
    lemma_joined_across(status, node_ports, lanes, net_id, p, q);
    lemma_joined_across(status, node_ports, lanes, net_id, q, p);
}

/// The lanes of a bounce by way of another chip, once they are assigned to
/// the net, link the chips of the two edges, and give each of the edges a
/// port of the net.
pub proof fn lemma_bounce_links<N: Node>(
    node_ports: Seq<NodePort<N>>,
    lanes: Seq<Lane>,
    available: Set<int>,
    status: Map<Port, NetId>,
    net_id: NetId,
    edge_a: Edge,
    edge_b: Edge,
)
    requires
        sound_wiring(node_ports, lanes),
        edge_a.wf(),
        edge_b.wf(),
        find_bounce(node_ports, lanes, available, edge_a, edge_b) is Some,
        forall|j: int|
            0 <= j < find_bounce(node_ports, lanes, available, edge_a, edge_b)->0.len() ==> {
                let index = #[trigger] find_bounce(
                    node_ports,
                    lanes,
                    available,
                    edge_a,
                    edge_b,
                )->0[j];
                0 <= index < lanes.len() && belongs(status, net_id, lanes[index].0) && belongs(
                    status,
                    net_id,
                    lanes[index].1,
                )
            },
    ensures
        has_port_on(status, net_id, edge_a),
        has_port_on(status, net_id, edge_b),
        linked(status, node_ports, lanes, net_id, edge_a, edge_b),
{
    let count = edge_a.spec_dimension().spec_port_count();
    let indices = find_bounce(node_ports, lanes, available, edge_a, edge_b)->0;
    lemma_first_index(0, count, bounces_at(node_ports, lanes, available, edge_a, edge_b));
    let k = first_index(0, count, bounces_at(node_ports, lanes, available, edge_a, edge_b))->0;
    let port0 = edge_a.spec_port(k);
    assert(port0.wf() && port0.spec_edge() == edge_a);
    lemma_lane_port_use(node_ports, lanes, lanes.len() as int, port0);
    let index0 = free_lane_at(node_ports, lanes, available, port0)->0;
    assert(indices[0] == index0);
    let far0 = lanes[index0].spec_opposite(port0);
    let landing = far0.spec_edge();
    assert(lanes[index0].wf());
    assert(landing.wf() && landing.spec_orthogonal().wf());
    lemma_along_both_ways(status, node_ports, lanes, net_id, index0, port0);
    match first_hop(node_ports, lanes, available, landing.spec_orthogonal(), edge_b) {
        Some(index1) => {
            let port1 = lemma_first_hop_leads(
                node_ports,
                lanes,
                available,
                landing.spec_orthogonal(),
                edge_b,
            );
            assert(indices[1] == index1);
            let far1 = lanes[index1].spec_opposite(port1);
            lemma_along_both_ways(status, node_ports, lanes, net_id, index1, port1);
            lemma_across_both_ways(status, node_ports, lanes, net_id, far0, port1);
            lemma_joined_twice(status, node_ports, lanes, net_id, port0, far0, port1);
            lemma_joined_twice(status, node_ports, lanes, net_id, port0, port1, far1);
            lemma_joined_twice(status, node_ports, lanes, net_id, far1, port1, far0);
            lemma_joined_twice(status, node_ports, lanes, net_id, far1, far0, port0);
            assert(is_link(status, node_ports, lanes, net_id, edge_a, edge_b, port0, far1));
        },
        None => {
            let index1 = first_hop(node_ports, lanes, available, landing, edge_b)->0;
            let index2 = first_leaving(
                node_ports,
                lanes,
                available,
                landing.spec_orthogonal(),
            )->0;
            let port1 = lemma_first_hop_leads(node_ports, lanes, available, landing, edge_b);
            let port2 = lemma_first_leaving_leads(
                node_ports,
                lanes,
                available,
                landing.spec_orthogonal(),
            );
            assert(indices[1] == index1);
            assert(indices[2] == index2);
            let far1 = lanes[index1].spec_opposite(port1);
            lemma_along_both_ways(status, node_ports, lanes, net_id, index1, port1);
            lemma_along_both_ways(status, node_ports, lanes, net_id, index2, port2);
            lemma_across_both_ways(status, node_ports, lanes, net_id, far0, port2);
            lemma_across_both_ways(status, node_ports, lanes, net_id, port2, port1);
            lemma_joined_twice(status, node_ports, lanes, net_id, port0, far0, port2);
            lemma_joined_twice(status, node_ports, lanes, net_id, port0, port2, port1);
            lemma_joined_twice(status, node_ports, lanes, net_id, port0, port1, far1);
            lemma_joined_twice(status, node_ports, lanes, net_id, far1, port1, port2);
            lemma_joined_twice(status, node_ports, lanes, net_id, far1, port2, far0);
            lemma_joined_twice(status, node_ports, lanes, net_id, far1, far0, port0);
            assert(is_link(status, node_ports, lanes, net_id, edge_a, edge_b, port0, far1));
        },
    }
}

/// The edges of the bounces are edges of the board.
pub open spec fn bounces_wf(bounces: Seq<PendingBounce>) -> bool {
    forall|t: int|
        0 <= t < bounces.len() ==> (#[trigger] bounces[t]).edge_a.wf() && bounces[t].edge_b.wf()
}

/// The bounces that joining the edges of a net adds are between edges of
/// the board.
pub proof fn lemma_grow_bounces_wf(
    lanes: Seq<Lane>,
    state: RouterState,
    unconnected: Set<Edge>,
    connected: Set<Edge>,
    net_id: NetId,
)
    requires
        bounces_wf(state.bounces),
    ensures
        grow(lanes, state, unconnected, connected, net_id) matches Ok(last) ==> bounces_wf(
            last.bounces,
        ),
    decreases unconnected.len(),
{
    if unconnected.finite() && unconnected.len() != 0 {
        match find_direct(
            lanes,
            state.available,
            edges_in_order(unconnected),
            edges_in_order(connected),
        ) {
            Some((edge, index)) => {
                if unconnected.contains(edge) {
                    if let Ok(next) = close_lane(lanes, state, index, net_id) {
                        lemma_grow_bounces_wf(
                            lanes,
                            next,
                            unconnected.remove(edge),
                            connected.insert(edge),
                            net_id,
                        );
                    }
                }
            },
            None => {
                lemma_first_edge_from(connected, 0);
                lemma_first_edge_from(unconnected, 0);
                match (first_edge(connected), first_edge(unconnected)) {
                    (Some(edge_a), Some(edge_b)) => {
                        if unconnected.contains(edge_b) {
                            if let Ok(next) = push_bounce(
                                state,
                                PendingBounce { edge_a, edge_b, net_id },
                            ) {
                                lemma_grow_bounces_wf(
                                    lanes,
                                    next,
                                    unconnected.remove(edge_b),
                                    connected,
                                    net_id,
                                );
                            }
                        }
                    },
                    _ => {},
                }
            },
        }
    }
}

/// The bounces that routing the nets adds are between edges of the board.
pub proof fn lemma_route_nets_bounces_wf<N: Node>(
    node_ports: Seq<NodePort<N>>,
    lanes: Seq<Lane>,
    nets: Seq<Net<N>>,
    k: int,
    state: RouterState,
)
    requires
        bounces_wf(state.bounces),
    ensures
        route_nets(node_ports, lanes, nets, k, state) matches Ok(last) ==> bounces_wf(
            last.bounces,
        ),
    decreases nets.len() - k,
{
    if k < nets.len() {
        let net = nets[k];
        if let Ok((status, edges)) = assign_ports(
            node_ports,
            ids_from(net.nodes.ids(), 0),
            0,
            net.id,
            state.status,
            Set::empty(),
        ) {
            let begun = RouterState { status, ..state };
            if let Some(start) = first_edge(edges) {
                if edges.remove(start) != Set::<Edge>::empty() {
                    lemma_grow_bounces_wf(lanes, begun, edges.remove(start), set![start], net.id);
                }
            }
        }
        if let Ok(next) = route_net(node_ports, lanes, state, net) {
            lemma_route_nets_bounces_wf(node_ports, lanes, nets, k + 1, next);
        }
    }
}

/// Resolving a bounce links the chips of its two edges, and gives each of
/// the edges a port of the net, or lets it wait for a lane.
pub proof fn lemma_resolve_bounce_joins<N: Node>(
    node_ports: Seq<NodePort<N>>,
    lanes: Seq<Lane>,
    state: RouterState,
    bounce: PendingBounce,
)
    requires
        sound_wiring(node_ports, lanes),
        bounce.edge_a.wf(),
        bounce.edge_b.wf(),
    ensures
        resolve_bounce(node_ports, lanes, state, bounce) matches Ok(next) ==> {
            &&& bounce_done(node_ports, lanes, next, bounce)
            &&& keeps(state.status, next.status)
            &&& grows_from(next.edge_nets, state.edge_nets)
            &&& next.bounces == state.bounces
        },
{
    let PendingBounce { edge_a, edge_b, net_id } = bounce;
    let first = connecting(edge_a.spec_orthogonal(), edge_b);
    let second = connecting(edge_a, edge_b.spec_orthogonal());
    lemma_first_free_lane(lanes, state.available, first);
    lemma_first_free_lane(lanes, state.available, second);
    assert(edge_a.spec_orthogonal().spec_orthogonal() == edge_a);
    assert(edge_b.spec_orthogonal().spec_orthogonal() == edge_b);
    match first_free_lane(lanes, state.available, first) {
        Some(index) => {
            lemma_close_lane(lanes, state, index, net_id);
            if let Ok(closed) = close_lane(lanes, state, index, net_id) {
                let item = PendingEdgeNet { edge: edge_a, net_id };
                if let Ok(next) = push_edge_net(closed, item) {
                    assert(lanes[index].wf());
                    assert(next.edge_nets[closed.edge_nets.len() as int] == item);
                    assert(waits(next.edge_nets, net_id, edge_a));
                    assert(has_port_on(next.status, net_id, edge_b)) by {
                        assert(belongs(next.status, net_id, lanes[index].0) && belongs(
                            next.status,
                            net_id,
                            lanes[index].1,
                        ));
                    }
                    lemma_lane_links(next.status, node_ports, lanes, net_id, index, edge_a, edge_b);
                }
            }
        },
        None => match first_free_lane(lanes, state.available, second) {
            Some(index) => {
                lemma_close_lane(lanes, state, index, net_id);
                if let Ok(closed) = close_lane(lanes, state, index, net_id) {
                    let item = PendingEdgeNet { edge: edge_b, net_id };
                    if let Ok(next) = push_edge_net(closed, item) {
                        assert(lanes[index].wf());
                        assert(next.edge_nets[closed.edge_nets.len() as int] == item);
                        assert(waits(next.edge_nets, net_id, edge_b));
                        assert(has_port_on(next.status, net_id, edge_a)) by {
                            assert(belongs(next.status, net_id, lanes[index].0) && belongs(
                                next.status,
                                net_id,
                                lanes[index].1,
                            ));
                        }
                        lemma_lane_links(
                            next.status,
                            node_ports,
                            lanes,
                            net_id,
                            index,
                            edge_a,
                            edge_b,
                        );
                    }
                }
            },
            None => {
                crate::invariants::lemma_find_bounce(
                    node_ports,
                    lanes,
                    state.available,
                    edge_a,
                    edge_b,
                );
                if let Some(indices) = find_bounce(
                    node_ports,
                    lanes,
                    state.available,
                    edge_a,
                    edge_b,
                ) {
                    lemma_set_lanes_assigns(lanes, indices, 0, net_id, state.status);
                    if let Ok(status) = set_lanes(lanes, indices, 0, net_id, state.status) {
                        lemma_bounce_links(
                            node_ports,
                            lanes,
                            state.available,
                            status,
                            net_id,
                            edge_a,
                            edge_b,
                        );
                    }
                }
            },
        },
    }
}

/// Resolving the bounces resolves each of them.
pub proof fn lemma_resolve_bounces_joins<N: Node>(
    node_ports: Seq<NodePort<N>>,
    lanes: Seq<Lane>,
    bounces: Seq<PendingBounce>,
    k: int,
    state: RouterState,
)
    requires
        sound_wiring(node_ports, lanes),
        bounces_wf(bounces),
        0 <= k,
    ensures
        resolve_bounces(node_ports, lanes, bounces, k, state) matches Ok(last) ==> {
            &&& keeps(state.status, last.status)
            &&& grows_from(last.edge_nets, state.edge_nets)
            &&& last.bounces == state.bounces
            &&& forall|t: int|
                k <= t < bounces.len() ==> bounce_done(
                    node_ports,
                    lanes,
                    last,
                    #[trigger] bounces[t],
                )
        },
    decreases bounces.len() - k,
{
    if k < bounces.len() {
        lemma_resolve_bounce_joins(node_ports, lanes, state, bounces[k]);
        if let Ok(next) = resolve_bounce(node_ports, lanes, state, bounces[k]) {
            lemma_resolve_bounces_joins(node_ports, lanes, bounces, k + 1, next);
            if let Ok(last) = resolve_bounces(node_ports, lanes, bounces, k + 1, next) {
                lemma_bounce_done_stays(node_ports, lanes, next, last, bounces[k]);
                crate::invariants::lemma_keeps_twice(state.status, next.status, last.status);
                assert forall|t: int| k <= t < bounces.len() implies bounce_done(
                    node_ports,
                    lanes,
                    last,
                    #[trigger] bounces[t],
                ) by {
                    if t > k {
                        assert(k + 1 <= t);
                    }
                }
            }
        }
    }
}

/// Giving the waiting edges their lanes gives each of them a port of its
/// net.
pub proof fn lemma_complete_edges_joins(
    lanes: Seq<Lane>,
    edge_nets: Seq<PendingEdgeNet>,
    k: int,
    state: RouterState,
)
    requires
        lanes_apart(lanes),
        0 <= k,
    ensures
        complete_edges(lanes, edge_nets, k, state) matches Ok(last) ==> {
            &&& keeps(state.status, last.status)
            &&& last.edge_nets == state.edge_nets
            &&& last.bounces == state.bounces
            &&& forall|s: int|
                k <= s < edge_nets.len() ==> has_port_on(
                    last.status,
                    (#[trigger] edge_nets[s]).net_id,
                    edge_nets[s].edge,
                )
        },
    decreases edge_nets.len() - k,
{
    if k < edge_nets.len() {
        let wanted = touching(edge_nets[k].edge);
        lemma_first_free_lane(lanes, state.available, wanted);
        if let Some(index) = first_free_lane(lanes, state.available, wanted) {
            lemma_close_lane(lanes, state, index, edge_nets[k].net_id);
            if let Ok(next) = close_lane(lanes, state, index, edge_nets[k].net_id) {
                lemma_complete_edges_joins(lanes, edge_nets, k + 1, next);
                if let Ok(last) = complete_edges(lanes, edge_nets, k + 1, next) {
                    assert(lanes[index].wf());
                    assert(has_port_on(next.status, edge_nets[k].net_id, edge_nets[k].edge)) by {
                        assert(belongs(next.status, edge_nets[k].net_id, lanes[index].0) && belongs(
                            next.status,
                            edge_nets[k].net_id,
                            lanes[index].1,
                        ));
                    }
                    lemma_has_port_on_stays(
                        next.status,
                        last.status,
                        edge_nets[k].net_id,
                        edge_nets[k].edge,
                    );
                    crate::invariants::lemma_keeps_twice(state.status, next.status, last.status);
                    assert forall|s: int| k <= s < edge_nets.len() implies has_port_on(
                        last.status,
                        (#[trigger] edge_nets[s]).net_id,
                        edge_nets[s].edge,
                    ) by {
                        if s > k {
                            assert(k + 1 <= s);
                        }
                    }
                }
            }
        }
    }
}

/// Once every edge of a net has a port of the net, and every bounce of the
/// net links its two chips, all the ports of the net on the chips of its
/// edges are joined with each other.
proof fn lemma_net_is_clique<N: Node>(
    node_ports: Seq<NodePort<N>>,
    lanes: Seq<Lane>,
    state: RouterState,
    net_id: NetId,
    edges: Set<Edge>,
    start: Edge,
    home: Set<Edge>,
)
    requires
        gone_through(node_ports, lanes, state, net_id, edges, start, home),
        forall|s: int|
            0 <= s < state.edge_nets.len() ==> has_port_on(
                state.status,
                (#[trigger] state.edge_nets[s]).net_id,
                state.edge_nets[s].edge,
            ),
        forall|t: int|
            0 <= t < state.bounces.len() ==> bounce_done(
                node_ports,
                lanes,
                state,
                #[trigger] state.bounces[t],
            ),
    ensures
        clique(state.status, node_ports, lanes, net_id, edges),
{
    let status = state.status;
    // Each edge of the net has a port of the net by now.
    assert forall|edge: Edge| #[trigger] edges.contains(edge) implies ready(
        status,
        net_id,
        edge,
    ) by {
        lemma_edge_is_ready(node_ports, lanes, state, net_id, edges, start, home, edge);
    }
    // The connected edges are joined with each other.
    if !solid(status, node_ports, lanes, net_id, home) {
        lemma_ready_is_solid(status, node_ports, lanes, net_id, start);
        assert(home =~= set![start]);
    }
    let anchor = choose|port: Port|
        port.wf() && #[trigger] belongs(status, net_id, port) && port.spec_edge() == start;
    assert(on_chips(anchor, home));
    assert forall|p: Port, q: Port|
        p.wf() && q.wf() && #[trigger] belongs(status, net_id, p) && #[trigger] belongs(
            status,
            net_id,
            q,
        ) && on_chips(p, edges) && on_chips(q, edges) implies joined(
        status,
        node_ports,
        lanes,
        net_id,
        p,
        q,
    ) by {
        let chip_p = if edges.contains(p.spec_edge()) {
            p.spec_edge()
        } else {
            p.spec_edge().spec_orthogonal()
        };
        let chip_q = if edges.contains(q.spec_edge()) {
            q.spec_edge()
        } else {
            q.spec_edge().spec_orthogonal()
        };
        let with_p = lemma_home_with(node_ports, lanes, state, net_id, edges, start, home, chip_p);
        let with_q = lemma_home_with(node_ports, lanes, state, net_id, edges, start, home, chip_q);
        assert(on_chips(p, with_p) && on_chips(anchor, with_p));
        assert(on_chips(q, with_q) && on_chips(anchor, with_q));
        lemma_joined_twice(status, node_ports, lanes, net_id, p, anchor, q);
    }
}

/// An edge of the net has a port of the net, once no edge waits any more.
proof fn lemma_edge_is_ready<N: Node>(
    node_ports: Seq<NodePort<N>>,
    lanes: Seq<Lane>,
    state: RouterState,
    net_id: NetId,
    edges: Set<Edge>,
    start: Edge,
    home: Set<Edge>,
    edge: Edge,
)
    requires
        gone_through(node_ports, lanes, state, net_id, edges, start, home),
        edges.contains(edge),
        forall|s: int|
            0 <= s < state.edge_nets.len() ==> has_port_on(
                state.status,
                (#[trigger] state.edge_nets[s]).net_id,
                state.edge_nets[s].edge,
            ),
        forall|t: int|
            0 <= t < state.bounces.len() ==> bounce_done(
                node_ports,
                lanes,
                state,
                #[trigger] state.bounces[t],
            ),
    ensures
        ready(state.status, net_id, edge),
{
    let status = state.status;
    assert(edge.spec_orthogonal().spec_orthogonal() == edge);
    if home.contains(edge) {
        if !solid(status, node_ports, lanes, net_id, home) {
            assert(edge == start);
            if waits(state.edge_nets, net_id, start) {
                let s = choose|s: int|
                    0 <= s < state.edge_nets.len() && (#[trigger] state.edge_nets[s]).edge == start
                        && state.edge_nets[s].net_id == net_id;
            } else {
                let t = choose|t: int|
                    0 <= t < state.bounces.len() && (#[trigger] state.bounces[t]).net_id == net_id
                        && state.bounces[t].edge_a == start;
                lemma_bounce_gives_ports(node_ports, lanes, state, t);
            }
        }
    } else {
        let t = choose|t: int|
            0 <= t < state.bounces.len() && (#[trigger] state.bounces[t]).net_id == net_id
                && state.bounces[t].edge_b == edge && home.contains(state.bounces[t].edge_a);
        lemma_bounce_gives_ports(node_ports, lanes, state, t);
    }
}

/// A bounce that is resolved has given both its edges a port of the net,
/// once no edge waits any more.
proof fn lemma_bounce_gives_ports<N: Node>(
    node_ports: Seq<NodePort<N>>,
    lanes: Seq<Lane>,
    state: RouterState,
    t: int,
)
    requires
        0 <= t < state.bounces.len(),
        bounce_done(node_ports, lanes, state, state.bounces[t]),
        forall|s: int|
            0 <= s < state.edge_nets.len() ==> has_port_on(
                state.status,
                (#[trigger] state.edge_nets[s]).net_id,
                state.edge_nets[s].edge,
            ),
    ensures
        has_port_on(state.status, state.bounces[t].net_id, state.bounces[t].edge_a),
        has_port_on(state.status, state.bounces[t].net_id, state.bounces[t].edge_b),
{
    let bounce = state.bounces[t];
    if waits(state.edge_nets, bounce.net_id, bounce.edge_a) {
        let s = choose|s: int|
            0 <= s < state.edge_nets.len() && (#[trigger] state.edge_nets[s]).edge == bounce.edge_a
                && state.edge_nets[s].net_id == bounce.net_id;
    }
    if waits(state.edge_nets, bounce.net_id, bounce.edge_b) {
        let s = choose|s: int|
            0 <= s < state.edge_nets.len() && (#[trigger] state.edge_nets[s]).edge == bounce.edge_b
                && state.edge_nets[s].net_id == bounce.net_id;
    }
}

/// The connected edges of a net together with any one edge of the net are
/// chips on which the ports of the net are joined.
proof fn lemma_home_with<N: Node>(
    node_ports: Seq<NodePort<N>>,
    lanes: Seq<Lane>,
    state: RouterState,
    net_id: NetId,
    edges: Set<Edge>,
    start: Edge,
    home: Set<Edge>,
    edge: Edge,
) -> (group: Set<Edge>)
    requires
        gone_through(node_ports, lanes, state, net_id, edges, start, home),
        edges.contains(edge),
        solid(state.status, node_ports, lanes, net_id, home),
        ready(state.status, net_id, edge),
        forall|t: int|
            0 <= t < state.bounces.len() ==> bounce_done(
                node_ports,
                lanes,
                state,
                #[trigger] state.bounces[t],
            ),
    ensures
        solid(state.status, node_ports, lanes, net_id, group),
        home.subset_of(group),
        group.contains(edge),
{
    if home.contains(edge) {
        home
    } else {
        let t = choose|t: int|
            0 <= t < state.bounces.len() && (#[trigger] state.bounces[t]).net_id == net_id
                && state.bounces[t].edge_b == edge && home.contains(state.bounces[t].edge_a);
        lemma_ready_is_solid(state.status, node_ports, lanes, net_id, edge);
        lemma_solid_merge(
            state.status,
            node_ports,
            lanes,
            net_id,
            home,
            set![edge],
            state.bounces[t].edge_a,
            edge,
        );
        home.union(set![edge])
    }
}

/// After a successful pass, every net hangs together. On a board where no
/// port is wired twice, for a netlist in which no two nets have the same
/// identifier, after a pass that started with nothing assigned: every net
/// that has a node passes the connectivity check.
pub proof fn lemma_routed_net_is_connected<N: Node>(
    node_ports: Seq<NodePort<N>>,
    lanes: Seq<Lane>,
    nets: Seq<Net<N>>,
    k: int,
)
    requires
        sound_wiring(node_ports, lanes),
        net_ids_distinct(nets),
        route(node_ports, lanes, nets, Map::empty()) is Ok,
        0 <= k < nets.len(),
        nets[k].nodes.ids() != Set::<int>::empty(),
    ensures
        is_connected(
            route(node_ports, lanes, nets, Map::empty())->Ok_0,
            node_ports,
            lanes,
            nets[k].id,
        ),
{
    let net_id = nets[k].id;
    let ids = nets[k].nodes.ids();
    let edges = needed_edges(node_ports, ids);
    let start = first_needed(node_ports, ids);
    let begun = initial_state(Map::empty());
    let homes = lemma_route_nets_joins(node_ports, lanes, nets, 0, begun);
    lemma_route_nets_bounces_wf(node_ports, lanes, nets, 0, begun);
    let routed = route_nets(node_ports, lanes, nets, 0, begun)->Ok_0;
    lemma_resolve_bounces_joins(node_ports, lanes, routed.bounces, 0, routed);
    let bounced = resolve_bounces(node_ports, lanes, routed.bounces, 0, routed)->Ok_0;
    lemma_complete_edges_joins(lanes, bounced.edge_nets, 0, bounced);
    let completed = complete_edges(lanes, bounced.edge_nets, 0, bounced)->Ok_0;
    let last = completed.status;
    assert(last == route(node_ports, lanes, nets, Map::empty())->Ok_0);
    assert(keeps(routed.status, last)) by {
        crate::invariants::lemma_keeps_twice(routed.status, bounced.status, last);
    }
    lemma_gone_through_stays(
        node_ports,
        lanes,
        routed,
        completed,
        net_id,
        edges,
        start,
        homes[k],
    );
    assert forall|t: int| 0 <= t < completed.bounces.len() implies bounce_done(
        node_ports,
        lanes,
        completed,
        #[trigger] completed.bounces[t],
    ) by {
        lemma_bounce_done_stays(node_ports, lanes, bounced, completed, routed.bounces[t]);
    }
    lemma_net_is_clique(node_ports, lanes, completed, net_id, edges, start, homes[k]);

    // The ports that the net must hold together lie on the chips of its edges.
    let required = required_ports(last, node_ports, lanes, net_id);
    lemma_route(node_ports, lanes, nets, Map::empty());
    assert forall|port: Port| #[trigger] required.contains(port) implies on_chips(port, edges) by {
        lemma_lane_port_use(node_ports, lanes, lanes.len() as int, port);
        assert(!crate::invariants::is_lane_end(lanes, port));
        assert(crate::invariants::is_port_of_nets(node_ports, nets, 0, last, port));
        let j = choose|j: int|
            0 <= j < nets.len() && last[port] == (#[trigger] nets[j]).id
                && crate::invariants::is_port_of_nodes(node_ports, nets[j].nodes.ids(), port);
        assert(j == k);
        let id = choose|id: int|
            ids.contains(id) && #[trigger] node_port_of(node_ports, id as u8) == Some(port);
        assert(is_needed_by(node_ports, port.spec_edge().spec_orthogonal(), id));
        assert(edges.contains(port.spec_edge().spec_orthogonal()));
    }
    // The net has a node, and the port of that node is one of them.
    let some = choose|id: int| ids.contains(id);
    assert(ids.contains(some)) by {
        if forall|id: int| !ids.contains(id) {
            assert(ids =~= Set::<int>::empty());
        }
    }
    assert(0 <= some < 128);
    let its_port = node_port_of(node_ports, some as u8)->0;
    lemma_first_index(
        0,
        node_ports.len() as int,
        crate::board::is_port_of(node_ports, some as u8),
    );
    let entry = crate::board::first_node_port(node_ports, some as u8)->0;
    crate::invariants::lemma_port_use_of_node_port(node_ports, lanes, entry);
    assert(required.contains(its_port));
    its_port.lemma_address();
    let found = is_required_at(last, node_ports, lanes, net_id);
    assert(found(its_port.address()));
    lemma_first_index(0, 288, found);
    let first = Port::from_address(first_index(0, 288, found)->0);
    Port::lemma_from_address(first_index(0, 288, found)->0);
    assert(required.contains(first));
    let visited = walk(last, node_ports, lanes, net_id, 288, first, Set::empty());
    assert forall|port: Port| required.contains(port) implies visited.contains(port) by {
        assert(belongs(last, net_id, first) && belongs(last, net_id, port));
        assert(on_chips(first, edges) && on_chips(port, edges));
        lemma_walk_visits_joined(last, node_ports, lanes, net_id, first, port);
    }
}

} // verus!
