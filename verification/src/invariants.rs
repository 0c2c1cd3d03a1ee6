//! What holds of every assignment that the router arrives at.

use vstd::prelude::*;

use crate::board::node_port_of;
use crate::board_spec::{lemma_lane_port_use, port_use, NodePort};
use crate::chip_status::{crosspoint_at, crosspoints_from, is_closed, spec_set, spec_set_lane};
use crate::dimension::Dimension;
use crate::edge::Edge;
use crate::lane::Lane;
use crate::map::port_map::PortUse;
use crate::net::Net;
use crate::net_id::NetId;
use crate::node::Node;
use crate::port::Port;
use crate::route::{
    assign_ports, bounces_at, close_lane, complete_edges, connect_net, connecting, find_bounce,
    find_direct, first_hop, first_leaving, free_lane_at, grow, hops_at, initial_state, leaves_at,
    lemma_find_direct, push_bounce, resolve_bounce, resolve_bounces, route, route_net, route_nets,
    set_lanes, touching, PendingBounce, PendingEdgeNet, RouterState,
};
use crate::search::{first_index, lemma_first_index};
use crate::set::edge_set::{edges_in_order, first_edge};
use crate::set::lane_set::{first_free_lane, lemma_first_free_lane};
use crate::set::node_set::{ids_from, lemma_ids_from};

verus! {

/// The port is an end of one of the lanes.
pub open spec fn is_lane_end(lanes: Seq<Lane>, port: Port) -> bool {
    exists|index: int| 0 <= index < lanes.len() && (#[trigger] lanes[index]).has_end(port)
}

/// The port is the first port of one of the given nodes.
pub open spec fn is_port_of_nodes<N: Node>(
    node_ports: Seq<NodePort<N>>,
    ids: Set<int>,
    port: Port,
) -> bool {
    exists|id: int| ids.contains(id) && #[trigger] node_port_of(node_ports, id as u8) == Some(port)
}

/// The later assignment holds every assignment of the earlier one.
pub open spec fn keeps(earlier: Map<Port, NetId>, later: Map<Port, NetId>) -> bool {
    forall|port: Port| #[trigger]
        earlier.dom().contains(port) ==> later.dom().contains(port) && later[port] == earlier[port]
}

/// What is kept, and kept again, is kept.
pub proof fn lemma_keeps_twice(
    first: Map<Port, NetId>,
    second: Map<Port, NetId>,
    third: Map<Port, NetId>,
)
    requires
        keeps(first, second),
        keeps(second, third),
    ensures
        keeps(first, third),
{
    assert forall|port: Port| #[trigger] first.dom().contains(port) implies third.dom().contains(
        port,
    ) && third[port] == first[port] by {
        assert(second.dom().contains(port));
    }
}

/// The later assignment holds every assignment of the earlier one, and
/// besides them only ends of lanes.
pub open spec fn adds_lane_ends(
    earlier: Map<Port, NetId>,
    later: Map<Port, NetId>,
    lanes: Seq<Lane>,
) -> bool {
    &&& keeps(earlier, later)
    &&& forall|port: Port| #[trigger]
        later.dom().contains(port) ==> earlier.dom().contains(port) || is_lane_end(lanes, port)
}

/// Assigning both ends of a lane adds the ends of a lane.
pub proof fn lemma_set_lane(status: Map<Port, NetId>, lanes: Seq<Lane>, index: int, net_id: NetId)
    requires
        0 <= index < lanes.len(),
    ensures
        spec_set_lane(status, lanes[index], net_id) matches Ok(next) ==> adds_lane_ends(
            status,
            next,
            lanes,
        ),
{
    if let Ok(next) = spec_set_lane(status, lanes[index], net_id) {
        let first = spec_set(status, lanes[index].0, net_id)->Ok_0;
        assert forall|port: Port| #[trigger] next.dom().contains(port) implies status.dom().contains(
            port,
        ) || is_lane_end(lanes, port) by {
            if !status.dom().contains(port) {
                assert(lanes[index].has_end(port));
            }
        }
        lemma_keeps_twice(status, first, next);
    }
}

/// To add ends of lanes, and then again, is to add ends of lanes.
pub proof fn lemma_adds_lane_ends_twice(
    first: Map<Port, NetId>,
    second: Map<Port, NetId>,
    third: Map<Port, NetId>,
    lanes: Seq<Lane>,
)
    requires
        adds_lane_ends(first, second, lanes),
        adds_lane_ends(second, third, lanes),
    ensures
        adds_lane_ends(first, third, lanes),
{
    assert forall|port: Port| #[trigger] third.dom().contains(port) implies first.dom().contains(
        port,
    ) || is_lane_end(lanes, port) by {
        if second.dom().contains(port) {
        }
    }
}

/// Joining the edges of a net adds ends of lanes, and nothing else.
pub proof fn lemma_grow(
    lanes: Seq<Lane>,
    state: RouterState,
    unconnected: Set<Edge>,
    connected: Set<Edge>,
    net_id: NetId,
)
    ensures
        grow(lanes, state, unconnected, connected, net_id) matches Ok(next) ==> adds_lane_ends(
            state.status,
            next.status,
            lanes,
        ),
    decreases unconnected.len(),
{
    if unconnected.finite() && unconnected.len() != 0 {
        lemma_find_direct(
            lanes,
            state.available,
            edges_in_order(unconnected),
            edges_in_order(connected),
        );
        match find_direct(
            lanes,
            state.available,
            edges_in_order(unconnected),
            edges_in_order(connected),
        ) {
            Some((edge, index)) => {
                if unconnected.contains(edge) {
                    lemma_set_lane(state.status, lanes, index, net_id);
                    if let Ok(next) = close_lane(lanes, state, index, net_id) {
                        lemma_grow(
                            lanes,
                            next,
                            unconnected.remove(edge),
                            connected.insert(edge),
                            net_id,
                        );
                        if let Ok(last) = grow(
                            lanes,
                            next,
                            unconnected.remove(edge),
                            connected.insert(edge),
                            net_id,
                        ) {
                            lemma_adds_lane_ends_twice(
                                state.status,
                                next.status,
                                last.status,
                                lanes,
                            );
                        }
                    }
                }
            },
            None => {
                match (first_edge(connected), first_edge(unconnected)) {
                    (Some(edge_a), Some(edge_b)) => {
                        if unconnected.contains(edge_b) {
                            if let Ok(next) = push_bounce(
                                state,
                                PendingBounce { edge_a, edge_b, net_id },
                            ) {
                                lemma_grow(
                                    lanes,
                                    next,
                                    unconnected.remove(edge_b),
                                    connected,
                                    net_id,
                                );
                            }
                        }
                    },
                    _ => {},
                }
            },
        }
    }
}

/// Assigning the ports of a net's nodes keeps what was assigned, assigns
/// the first port of each of the nodes to the net, and assigns nothing
/// else.
pub proof fn lemma_assign_ports<N: Node>(
    node_ports: Seq<NodePort<N>>,
    ids: Seq<int>,
    k: int,
    net_id: NetId,
    status: Map<Port, NetId>,
    edges: Set<Edge>,
)
    requires
        0 <= k,
    ensures
        assign_ports(node_ports, ids, k, net_id, status, edges) matches Ok((next, _)) ==> {
            &&& keeps(status, next)
            &&& forall|j: int|
                k <= j < ids.len() ==> (#[trigger] node_port_of(node_ports, ids[j] as u8)
                    matches Some(port) && next.dom().contains(port) && next[port] == net_id)
            &&& forall|port: Port| #[trigger]
                next.dom().contains(port) ==> status.dom().contains(port) || (next[port] == net_id
                    && exists|j: int|
                    k <= j < ids.len() && #[trigger] node_port_of(node_ports, ids[j] as u8) == Some(
                        port,
                    ))
        },
    decreases ids.len() - k,
{
    if k < ids.len() {
        if let Some(port) = node_port_of(node_ports, ids[k] as u8) {
            if let Ok(assigned) = spec_set(status, port, net_id) {
                let more = edges.insert(port.spec_edge().spec_orthogonal());
                lemma_assign_ports(node_ports, ids, k + 1, net_id, assigned, more);
                if let Ok((next, _)) = assign_ports(node_ports, ids, k + 1, net_id, assigned, more) {
                    assert(assigned.dom().contains(port) && assigned[port] == net_id);
                    lemma_keeps_twice(status, assigned, next);
                    assert(next.dom().contains(port) && next[port] == net_id);
                    assert forall|j: int| k <= j < ids.len() implies (#[trigger] node_port_of(
                        node_ports,
                        ids[j] as u8,
                    ) matches Some(found) && next.dom().contains(found) && next[found]
                        == net_id) by {
                        if j == k {
                        } else {
                            assert(k + 1 <= j);
                        }
                    }
                    assert forall|other: Port| #[trigger]
                        next.dom().contains(other) implies status.dom().contains(other) || (
                    next[other] == net_id && exists|j: int|
                        k <= j < ids.len() && #[trigger] node_port_of(node_ports, ids[j] as u8)
                            == Some(other)) by {
                        if !status.dom().contains(other) {
                            if assigned.dom().contains(other) {
                                assert(other == port);
                                assert(node_port_of(node_ports, ids[k] as u8) == Some(other));
                            } else {
                                let j = choose|j: int|
                                    k + 1 <= j < ids.len() && #[trigger] node_port_of(
                                        node_ports,
                                        ids[j] as u8,
                                    ) == Some(other);
                                assert(k <= j < ids.len());
                            }
                        }
                    }
                }
            }
        }
    }
}

/// Connecting the edges of a net adds ends of lanes, and nothing else.
pub proof fn lemma_connect_net(
    lanes: Seq<Lane>,
    state: RouterState,
    edges: Set<Edge>,
    net_id: NetId,
)
    ensures
        connect_net(lanes, state, edges, net_id) matches Ok(next) ==> adds_lane_ends(
            state.status,
            next.status,
            lanes,
        ),
{
    if let Some(start) = first_edge(edges) {
        if edges.remove(start) != Set::<Edge>::empty() {
            lemma_grow(lanes, state, edges.remove(start), set![start], net_id);
        }
    }
}

/// What routing one net does to the assignment: it keeps what was
/// assigned, assigns the first port of each node of the net to the net, and
/// besides these assigns only ends of lanes.
pub open spec fn routes_net<N: Node>(
    node_ports: Seq<NodePort<N>>,
    lanes: Seq<Lane>,
    net: Net<N>,
    earlier: Map<Port, NetId>,
    later: Map<Port, NetId>,
) -> bool {
    &&& keeps(earlier, later)
    &&& forall|id: int| #[trigger]
        net.nodes.ids().contains(id) ==> (node_port_of(node_ports, id as u8) matches Some(port)
            && later.dom().contains(port) && later[port] == net.id)
    &&& forall|port: Port| #[trigger]
        later.dom().contains(port) ==> earlier.dom().contains(port) || is_lane_end(lanes, port) || (
        later[port] == net.id && is_port_of_nodes(node_ports, net.nodes.ids(), port))
}

/// Routing one net keeps what was assigned, assigns the first port of each
/// node of the net to the net, and besides these assigns only ends of lanes.
pub proof fn lemma_route_net<N: Node>(
    node_ports: Seq<NodePort<N>>,
    lanes: Seq<Lane>,
    state: RouterState,
    net: Net<N>,
)
    ensures
        route_net(node_ports, lanes, state, net) matches Ok(next) ==> routes_net(
            node_ports,
            lanes,
            net,
            state.status,
            next.status,
        ),
{
    let ids = ids_from(net.nodes.ids(), 0);
    lemma_ids_from(net.nodes.ids(), 0);
    lemma_assign_ports(node_ports, ids, 0, net.id, state.status, Set::empty());
    if let Ok((assigned, edges)) = assign_ports(
        node_ports,
        ids,
        0,
        net.id,
        state.status,
        Set::empty(),
    ) {
        let begun = RouterState { status: assigned, ..state };
        lemma_connect_net(lanes, begun, edges, net.id);
        if let Ok(next) = connect_net(lanes, begun, edges, net.id) {
            let later = next.status;
            assert forall|id: int| #[trigger] net.nodes.ids().contains(id) implies (node_port_of(
                node_ports,
                id as u8,
            ) matches Some(port) && later.dom().contains(port) && later[port] == net.id) by {
                let j = choose|j: int| 0 <= j < ids.len() && ids[j] == id;
                let port = node_port_of(node_ports, ids[j] as u8)->0;
                assert(assigned.dom().contains(port));
            }
            assert forall|port: Port| #[trigger] later.dom().contains(port) implies state.status.dom().contains(
                port,
            ) || is_lane_end(lanes, port) || (later[port] == net.id && is_port_of_nodes(
                node_ports,
                net.nodes.ids(),
                port,
            )) by {
                if assigned.dom().contains(port) && !state.status.dom().contains(port) {
                    let j = choose|j: int|
                        0 <= j < ids.len() && #[trigger] node_port_of(node_ports, ids[j] as u8)
                            == Some(port);
                    assert(net.nodes.ids().contains(ids[j]));
                }
            }
            lemma_keeps_twice(state.status, assigned, later);
        }
    }
}

/// What routing the nets from the `k`th on does to the assignment: it
/// keeps what was assigned, assigns the first port of each node of each of
/// the nets to that net, and besides these assigns only ends of lanes.
pub open spec fn routes_nets<N: Node>(
    node_ports: Seq<NodePort<N>>,
    lanes: Seq<Lane>,
    nets: Seq<Net<N>>,
    k: int,
    earlier: Map<Port, NetId>,
    later: Map<Port, NetId>,
) -> bool {
    &&& keeps(earlier, later)
    &&& forall|j: int, id: int|
        k <= j < nets.len() && #[trigger] nets[j].nodes.ids().contains(id) ==> (node_port_of(
            node_ports,
            id as u8,
        ) matches Some(port) && later.dom().contains(port) && later[port] == nets[j].id)
    &&& forall|port: Port| #[trigger]
        later.dom().contains(port) ==> earlier.dom().contains(port) || is_lane_end(lanes, port)
            || is_port_of_nets(node_ports, nets, k, later, port)
}

/// The port is assigned to one of the nets from the `k`th on, and it is
/// the first port of one of the nodes of that net.
pub open spec fn is_port_of_nets<N: Node>(
    node_ports: Seq<NodePort<N>>,
    nets: Seq<Net<N>>,
    k: int,
    status: Map<Port, NetId>,
    port: Port,
) -> bool {
    exists|j: int|
        k <= j < nets.len() && status[port] == (#[trigger] nets[j]).id && is_port_of_nodes(
            node_ports,
            nets[j].nodes.ids(),
            port,
        )
}

/// Routing the nets keeps what was assigned, assigns the first port of
/// each node of each net to that net, and besides these assigns only ends
/// of lanes.
pub proof fn lemma_route_nets<N: Node>(
    node_ports: Seq<NodePort<N>>,
    lanes: Seq<Lane>,
    nets: Seq<Net<N>>,
    k: int,
    state: RouterState,
)
    requires
        0 <= k,
    ensures
        route_nets(node_ports, lanes, nets, k, state) matches Ok(last) ==> routes_nets(
            node_ports,
            lanes,
            nets,
            k,
            state.status,
            last.status,
        ),
    decreases nets.len() - k,
{
    if k < nets.len() {
        lemma_route_net(node_ports, lanes, state, nets[k]);
        if let Ok(next) = route_net(node_ports, lanes, state, nets[k]) {
            lemma_route_nets(node_ports, lanes, nets, k + 1, next);
            if let Ok(last) = route_nets(node_ports, lanes, nets, k + 1, next) {
                let earlier = state.status;
                let later = last.status;
                lemma_keeps_twice(earlier, next.status, later);
                assert forall|j: int, id: int|
                    k <= j < nets.len() && #[trigger] nets[j].nodes.ids().contains(
                        id,
                    ) implies (node_port_of(node_ports, id as u8) matches Some(port)
                    && later.dom().contains(port) && later[port] == nets[j].id) by {
                    if j == k {
                        let port = node_port_of(node_ports, id as u8)->0;
                        assert(next.status.dom().contains(port));
                    }
                }
                assert forall|port: Port| #[trigger] later.dom().contains(port) implies earlier.dom().contains(
                    port,
                ) || is_lane_end(lanes, port) || is_port_of_nets(
                    node_ports,
                    nets,
                    k,
                    later,
                    port,
                ) by {
                    if next.status.dom().contains(port) {
                        if !earlier.dom().contains(port) && !is_lane_end(lanes, port) {
                            assert(later[port] == nets[k].id);
                            assert(is_port_of_nets(node_ports, nets, k, later, port));
                        }
                    } else if !is_lane_end(lanes, port) {
                        let j = choose|j: int|
                            k + 1 <= j < nets.len() && later[port] == (#[trigger] nets[j]).id
                                && is_port_of_nodes(node_ports, nets[j].nodes.ids(), port);
                        assert(k <= j);
                        assert(is_port_of_nets(node_ports, nets, k, later, port));
                    }
                }
            }
        }
    }
}

/// The lane that is found free at a port is a lane of the list.
pub proof fn lemma_free_lane_at<N: Node>(
    node_ports: Seq<NodePort<N>>,
    lanes: Seq<Lane>,
    available: Set<int>,
    port: Port,
)
    requires
        lanes.len() <= 127,
    ensures
        free_lane_at(node_ports, lanes, available, port) matches Some(index) ==> 0 <= index
            < lanes.len(),
{
    lemma_lane_port_use(node_ports, lanes, lanes.len() as int, port);
}

/// The lanes of a bounce are lanes of the list.
pub proof fn lemma_find_bounce<N: Node>(
    node_ports: Seq<NodePort<N>>,
    lanes: Seq<Lane>,
    available: Set<int>,
    edge_a: Edge,
    edge_b: Edge,
)
    requires
        lanes.len() <= 127,
    ensures
        find_bounce(node_ports, lanes, available, edge_a, edge_b) matches Some(indices)
            ==> forall|i: int| 0 <= i < indices.len() ==> 0 <= #[trigger] indices[i] < lanes.len(),
{
    let count = edge_a.spec_dimension().spec_port_count();
    lemma_first_index(0, count, bounces_at(node_ports, lanes, available, edge_a, edge_b));
    if let Some(k) = first_index(
        0,
        count,
        bounces_at(node_ports, lanes, available, edge_a, edge_b),
    ) {
        let port = edge_a.spec_port(k);
        lemma_free_lane_at(node_ports, lanes, available, port);
        let index0 = free_lane_at(node_ports, lanes, available, port)->0;
        let landing = lanes[index0].spec_opposite(port).spec_edge();
        lemma_first_hop(node_ports, lanes, available, landing.spec_orthogonal(), edge_b);
        lemma_first_hop(node_ports, lanes, available, landing, edge_b);
        lemma_first_leaving(node_ports, lanes, available, landing.spec_orthogonal());
    }
}

/// The lane of a hop is a lane of the list.
pub proof fn lemma_first_hop<N: Node>(
    node_ports: Seq<NodePort<N>>,
    lanes: Seq<Lane>,
    available: Set<int>,
    edge: Edge,
    target: Edge,
)
    requires
        lanes.len() <= 127,
    ensures
        first_hop(node_ports, lanes, available, edge, target) matches Some(index) ==> 0 <= index
            < lanes.len(),
{
    let count = edge.spec_dimension().spec_port_count();
    if let Some(k) = first_index(0, count, hops_at(node_ports, lanes, available, edge, target)) {
        lemma_free_lane_at(node_ports, lanes, available, edge.spec_port(k));
    }
}

/// The lane that leaves an edge is a lane of the list.
pub proof fn lemma_first_leaving<N: Node>(
    node_ports: Seq<NodePort<N>>,
    lanes: Seq<Lane>,
    available: Set<int>,
    edge: Edge,
)
    requires
        lanes.len() <= 127,
    ensures
        first_leaving(node_ports, lanes, available, edge) matches Some(index) ==> 0 <= index
            < lanes.len(),
{
    let count = edge.spec_dimension().spec_port_count();
    if let Some(k) = first_index(0, count, leaves_at(node_ports, lanes, available, edge)) {
        lemma_free_lane_at(node_ports, lanes, available, edge.spec_port(k));
    }
}

/// Assigning the ends of several lanes adds ends of lanes, and nothing
/// else.
pub proof fn lemma_set_lanes(
    lanes: Seq<Lane>,
    indices: Seq<int>,
    k: int,
    net_id: NetId,
    status: Map<Port, NetId>,
)
    requires
        0 <= k,
        forall|i: int| 0 <= i < indices.len() ==> 0 <= #[trigger] indices[i] < lanes.len(),
    ensures
        set_lanes(lanes, indices, k, net_id, status) matches Ok(next) ==> adds_lane_ends(
            status,
            next,
            lanes,
        ),
    decreases indices.len() - k,
{
    if k < indices.len() {
        lemma_set_lane(status, lanes, indices[k], net_id);
        if let Ok(first) = spec_set_lane(status, lanes[indices[k]], net_id) {
            lemma_set_lanes(lanes, indices, k + 1, net_id, first);
            if let Ok(next) = set_lanes(lanes, indices, k + 1, net_id, first) {
                lemma_adds_lane_ends_twice(status, first, next, lanes);
            }
        }
    }
}

/// Resolving a bounce adds ends of lanes, and nothing else.
pub proof fn lemma_resolve_bounce<N: Node>(
    node_ports: Seq<NodePort<N>>,
    lanes: Seq<Lane>,
    state: RouterState,
    bounce: PendingBounce,
)
    requires
        lanes.len() <= 127,
    ensures
        resolve_bounce(node_ports, lanes, state, bounce) matches Ok(next) ==> adds_lane_ends(
            state.status,
            next.status,
            lanes,
        ),
{
    let PendingBounce { edge_a, edge_b, net_id } = bounce;
    let first = connecting(edge_a.spec_orthogonal(), edge_b);
    let second = connecting(edge_a, edge_b.spec_orthogonal());
    lemma_first_free_lane(lanes, state.available, first);
    lemma_first_free_lane(lanes, state.available, second);
    match first_free_lane(lanes, state.available, first) {
        Some(index) => {
            lemma_set_lane(state.status, lanes, index, net_id);
        },
        None => match first_free_lane(lanes, state.available, second) {
            Some(index) => {
                lemma_set_lane(state.status, lanes, index, net_id);
            },
            None => {
                lemma_find_bounce(node_ports, lanes, state.available, edge_a, edge_b);
                if let Some(indices) = find_bounce(
                    node_ports,
                    lanes,
                    state.available,
                    edge_a,
                    edge_b,
                ) {
                    lemma_set_lanes(lanes, indices, 0, net_id, state.status);
                }
            },
        },
    }
}

/// Resolving the bounces adds ends of lanes, and nothing else.
pub proof fn lemma_resolve_bounces<N: Node>(
    node_ports: Seq<NodePort<N>>,
    lanes: Seq<Lane>,
    bounces: Seq<PendingBounce>,
    k: int,
    state: RouterState,
)
    requires
        0 <= k,
        lanes.len() <= 127,
    ensures
        resolve_bounces(node_ports, lanes, bounces, k, state) matches Ok(last) ==> adds_lane_ends(
            state.status,
            last.status,
            lanes,
        ),
    decreases bounces.len() - k,
{
    if k < bounces.len() {
        lemma_resolve_bounce(node_ports, lanes, state, bounces[k]);
        if let Ok(next) = resolve_bounce(node_ports, lanes, state, bounces[k]) {
            lemma_resolve_bounces(node_ports, lanes, bounces, k + 1, next);
            if let Ok(last) = resolve_bounces(node_ports, lanes, bounces, k + 1, next) {
                lemma_adds_lane_ends_twice(state.status, next.status, last.status, lanes);
            }
        }
    }
}

/// Giving the waiting edges their lanes adds ends of lanes, and nothing
/// else.
pub proof fn lemma_complete_edges(
    lanes: Seq<Lane>,
    edge_nets: Seq<PendingEdgeNet>,
    k: int,
    state: RouterState,
)
    requires
        0 <= k,
    ensures
        complete_edges(lanes, edge_nets, k, state) matches Ok(last) ==> adds_lane_ends(
            state.status,
            last.status,
            lanes,
        ),
    decreases edge_nets.len() - k,
{
    if k < edge_nets.len() {
        lemma_first_free_lane(lanes, state.available, touching(edge_nets[k].edge));
        if let Some(index) = first_free_lane(
            lanes,
            state.available,
            touching(edge_nets[k].edge),
        ) {
            lemma_set_lane(state.status, lanes, index, edge_nets[k].net_id);
            if let Ok(next) = close_lane(lanes, state, index, edge_nets[k].net_id) {
                lemma_complete_edges(lanes, edge_nets, k + 1, next);
                if let Ok(last) = complete_edges(lanes, edge_nets, k + 1, next) {
                    lemma_adds_lane_ends_twice(state.status, next.status, last.status, lanes);
                }
            }
        }
    }
}

/// Every successful pass keeps what was assigned before it, assigns the
/// first port of each node of each net to that net, and besides these
/// assigns only ends of lanes.
pub proof fn lemma_route<N: Node>(
    node_ports: Seq<NodePort<N>>,
    lanes: Seq<Lane>,
    nets: Seq<Net<N>>,
    status: Map<Port, NetId>,
)
    requires
        lanes.len() <= 127,
    ensures
        route(node_ports, lanes, nets, status) matches Ok(last) ==> routes_nets(
            node_ports,
            lanes,
            nets,
            0,
            status,
            last,
        ),
{
    let begun = initial_state(status);
    lemma_route_nets(node_ports, lanes, nets, 0, begun);
    if let Ok(routed) = route_nets(node_ports, lanes, nets, 0, begun) {
        lemma_resolve_bounces(node_ports, lanes, routed.bounces, 0, routed);
        if let Ok(bounced) = resolve_bounces(node_ports, lanes, routed.bounces, 0, routed) {
            lemma_complete_edges(lanes, bounced.edge_nets, 0, bounced);
            if let Ok(completed) = complete_edges(lanes, bounced.edge_nets, 0, bounced) {
                let last = completed.status;
                lemma_adds_lane_ends_twice(routed.status, bounced.status, last, lanes);
                lemma_keeps_twice(status, routed.status, last);
                assert forall|j: int, id: int|
                    0 <= j < nets.len() && #[trigger] nets[j].nodes.ids().contains(
                        id,
                    ) implies (node_port_of(node_ports, id as u8) matches Some(port)
                    && last.dom().contains(port) && last[port] == nets[j].id) by {
                    let port = node_port_of(node_ports, id as u8)->0;
                    assert(routed.status.dom().contains(port));
                }
                assert forall|port: Port| #[trigger] last.dom().contains(port) implies status.dom().contains(
                    port,
                ) || is_lane_end(lanes, port) || is_port_of_nets(
                    node_ports,
                    nets,
                    0,
                    last,
                    port,
                ) by {
                    if routed.status.dom().contains(port) && !status.dom().contains(port)
                        && !is_lane_end(lanes, port) {
                        let j = choose|j: int|
                            0 <= j < nets.len() && routed.status[port] == (#[trigger] nets[j]).id
                                && is_port_of_nodes(node_ports, nets[j].nodes.ids(), port);
                        assert(is_port_of_nets(node_ports, nets, 0, last, port));
                    }
                }
            }
        }
    }
}

/// After a successful pass, the port of every node of every net is
/// assigned to that net.
pub proof fn lemma_node_ports_are_assigned<N: Node>(
    node_ports: Seq<NodePort<N>>,
    lanes: Seq<Lane>,
    nets: Seq<Net<N>>,
    status: Map<Port, NetId>,
    k: int,
    node: N,
)
    requires
        lanes.len() <= 127,
        route(node_ports, lanes, nets, status) is Ok,
        0 <= k < nets.len(),
        nets[k].nodes@.contains(node),
    ensures
        node_port_of(node_ports, node.spec_id()) matches Some(port) && route(
            node_ports,
            lanes,
            nets,
            status,
        )->Ok_0.dom().contains(port) && route(node_ports, lanes, nets, status)->Ok_0[port]
            == nets[k].id,
{
    lemma_route(node_ports, lanes, nets, status);
    assert(nets[k].nodes.ids().contains(node.spec_id() as int));
}

/// No port is ever taken from one net and given to another: a pass that
/// succeeds has left every assignment that it found as it was.
pub proof fn lemma_assignments_are_kept<N: Node>(
    node_ports: Seq<NodePort<N>>,
    lanes: Seq<Lane>,
    nets: Seq<Net<N>>,
    status: Map<Port, NetId>,
    port: Port,
)
    requires
        lanes.len() <= 127,
        route(node_ports, lanes, nets, status) is Ok,
        status.dom().contains(port),
    ensures
        route(node_ports, lanes, nets, status)->Ok_0.dom().contains(port),
        route(node_ports, lanes, nets, status)->Ok_0[port] == status[port],
{
    lemma_route(node_ports, lanes, nets, status);
}

/// No crosspoint joins ports of different nets: the column and the row of
/// every crosspoint that is listed are both assigned to the net of the
/// crosspoint, and the crosspoint is that of a switch.
pub proof fn lemma_crosspoints_join_one_net(status: Map<Port, NetId>, from: int, i: int)
    requires
        0 <= from,
        0 <= i < crosspoints_from(status, from).len(),
    ensures
        ({
            let crosspoint = crosspoints_from(status, from)[i];
            let column = Port::spec_new(crosspoint.chip, Dimension::X, crosspoint.x);
            let row = Port::spec_new(crosspoint.chip, Dimension::Y, crosspoint.y);
            &&& crosspoint.wf()
            &&& from <= crosspoint.address() < 1536
            &&& status.dom().contains(column) && status[column] == crosspoint.net_id
            &&& status.dom().contains(row) && status[row] == crosspoint.net_id
        }),
    decreases 1536 - from,
{
    if from < 1536 {
        if is_closed(status, from) {
            if i > 0 {
                lemma_crosspoints_join_one_net(status, from + 1, i - 1);
                assert(crosspoints_from(status, from)[i] == crosspoints_from(status, from + 1)[i
                    - 1]);
            }
        } else {
            lemma_crosspoints_join_one_net(status, from + 1, i);
        }
    }
}

/// Every switch whose column and row are assigned to the same net is
/// listed among the crosspoints.
pub proof fn lemma_crosspoints_are_complete(status: Map<Port, NetId>, from: int, address: int)
    requires
        0 <= from <= address < 1536,
        is_closed(status, address),
    ensures
        crosspoints_from(status, from).contains(crosspoint_at(status, address)),
    decreases 1536 - from,
{
    let list = crosspoints_from(status, from);
    if from == address {
        assert(list[0] == crosspoint_at(status, address));
    } else {
        lemma_crosspoints_are_complete(status, from + 1, address);
        let rest = crosspoints_from(status, from + 1);
        let j = choose|j: int| 0 <= j < rest.len() && rest[j] == crosspoint_at(status, address);
        if is_closed(status, from) {
            assert(list[j + 1] == rest[j]);
        } else {
            assert(list[j] == rest[j]);
        }
    }
}

/// No port is wired twice: no two node-ports share a port, and no lane ends
/// at the port of a node.
pub open spec fn node_ports_unshared<N: Node>(node_ports: Seq<NodePort<N>>, lanes: Seq<Lane>) -> bool {
    &&& forall|i: int, j: int|
        0 <= i < j < node_ports.len() ==> (#[trigger] node_ports[i]).1 != (
        #[trigger] node_ports[j]).1
    &&& forall|i: int, j: int|
        0 <= i < node_ports.len() && 0 <= j < lanes.len() ==> !(#[trigger] lanes[j]).has_end(
            (#[trigger] node_ports[i]).1,
        )
}

/// No two nets have the same identifier.
pub open spec fn net_ids_distinct<N: Node>(nets: Seq<Net<N>>) -> bool {
    forall|i: int, j: int|
        0 <= i < j < nets.len() ==> (#[trigger] nets[i]).id != (#[trigger] nets[j]).id
}

/// Where no port is wired twice, the port of a node-port is mapped to the
/// node of that node-port.
pub proof fn lemma_port_use_of_node_port<N: Node>(
    node_ports: Seq<NodePort<N>>,
    lanes: Seq<Lane>,
    i: int,
)
    requires
        node_ports_unshared(node_ports, lanes),
        0 <= i < node_ports.len(),
    ensures
        port_use(node_ports, lanes, node_ports[i].1) == PortUse::Node(node_ports[i].0.spec_id()),
{
    let port = node_ports[i].1;
    lemma_no_lane_at(node_ports, lanes, lanes.len() as int, port, i);
    lemma_only_node_port(node_ports, node_ports.len() as int, port, i);
}

proof fn lemma_no_lane_at<N: Node>(
    node_ports: Seq<NodePort<N>>,
    lanes: Seq<Lane>,
    count: int,
    port: Port,
    i: int,
)
    requires
        node_ports_unshared(node_ports, lanes),
        0 <= i < node_ports.len(),
        port == node_ports[i].1,
        0 <= count <= lanes.len(),
    ensures
        crate::board_spec::lane_port_use(node_ports, lanes, count, port)
            == crate::board_spec::node_port_use(node_ports, node_ports.len() as int, port),
    decreases count,
{
    if count > 0 {
        assert(!lanes[count - 1].has_end(node_ports[i].1));
        lemma_no_lane_at(node_ports, lanes, count - 1, port, i);
    }
}

proof fn lemma_only_node_port<N: Node>(
    node_ports: Seq<NodePort<N>>,
    count: int,
    port: Port,
    i: int,
)
    requires
        forall|a: int, b: int|
            0 <= a < b < node_ports.len() ==> (#[trigger] node_ports[a]).1 != (
            #[trigger] node_ports[b]).1,
        0 <= i < count <= node_ports.len(),
        port == node_ports[i].1,
    ensures
        crate::board_spec::node_port_use(node_ports, count, port) == PortUse::Node(
            node_ports[i].0.spec_id(),
        ),
    decreases count,
{
    if count - 1 > i {
        assert(node_ports[i].1 != node_ports[count - 1].1);
        lemma_only_node_port(node_ports, count - 1, port, i);
    }
}

/// The netlist can be read back from the assignment. On a board where no
/// port is wired twice, after a successful pass that started with nothing
/// assigned, the nodes of a net are exactly the nodes that are wired to the
/// ports assigned to the net.
pub proof fn lemma_round_trip<N: Node>(
    node_ports: Seq<NodePort<N>>,
    lanes: Seq<Lane>,
    nets: Seq<Net<N>>,
    k: int,
    id: u8,
)
    requires
        lanes.len() <= 127,
        node_ports_unshared(node_ports, lanes),
        net_ids_distinct(nets),
        route(node_ports, lanes, nets, Map::empty()) is Ok,
        0 <= k < nets.len(),
    ensures
        nets[k].nodes.ids().contains(id as int) <==> exists|port: Port|
            is_read_back(
                node_ports,
                lanes,
                route(node_ports, lanes, nets, Map::empty())->Ok_0,
                nets[k].id,
                id,
                port,
            ),
{
    let last = route(node_ports, lanes, nets, Map::empty())->Ok_0;
    lemma_route(node_ports, lanes, nets, Map::empty());
    if nets[k].nodes.ids().contains(id as int) {
        let port = node_port_of(node_ports, id)->0;
        lemma_first_index(
            0,
            node_ports.len() as int,
            crate::board::is_port_of(node_ports, id),
        );
        let i = crate::board::first_node_port(node_ports, id)->0;
        lemma_port_use_of_node_port(node_ports, lanes, i);
        assert(is_read_back(node_ports, lanes, last, nets[k].id, id, port));
    }
    if exists|port: Port| is_read_back(node_ports, lanes, last, nets[k].id, id, port) {
        let port = choose|port: Port| is_read_back(node_ports, lanes, last, nets[k].id, id, port);
        lemma_lane_port_use(node_ports, lanes, lanes.len() as int, port);
        assert(!is_lane_end(lanes, port));
        assert(is_port_of_nets(node_ports, nets, 0, last, port));
        let j = choose|j: int|
            0 <= j < nets.len() && last[port] == (#[trigger] nets[j]).id && is_port_of_nodes(
                node_ports,
                nets[j].nodes.ids(),
                port,
            );
        assert(j == k);
        let other = choose|other: int|
            nets[k].nodes.ids().contains(other) && #[trigger] node_port_of(
                node_ports,
                other as u8,
            ) == Some(port);
        lemma_first_index(
            0,
            node_ports.len() as int,
            crate::board::is_port_of(node_ports, other as u8),
        );
        let i = crate::board::first_node_port(node_ports, other as u8)->0;
        lemma_port_use_of_node_port(node_ports, lanes, i);
        assert(other as u8 == id);
    }
}

/// The port is assigned to the net, and wired to the node with the given
/// identifier.
pub open spec fn is_read_back<N: Node>(
    node_ports: Seq<NodePort<N>>,
    lanes: Seq<Lane>,
    status: Map<Port, NetId>,
    net_id: NetId,
    id: u8,
    port: Port,
) -> bool {
    status.dom().contains(port) && status[port] == net_id && port_use(node_ports, lanes, port)
        == PortUse::Node(id)
}

/// After a successful pass that started with nothing assigned, every port
/// that is assigned and wired to a node is assigned to one of the nets of
/// the netlist.
pub proof fn lemma_no_stray_net<N: Node>(
    node_ports: Seq<NodePort<N>>,
    lanes: Seq<Lane>,
    nets: Seq<Net<N>>,
    port: Port,
)
    requires
        lanes.len() <= 127,
        route(node_ports, lanes, nets, Map::empty()) is Ok,
        route(node_ports, lanes, nets, Map::empty())->Ok_0.dom().contains(port),
        port_use(node_ports, lanes, port) is Node,
    ensures
        exists|j: int|
            0 <= j < nets.len() && route(node_ports, lanes, nets, Map::empty())->Ok_0[port] == (
            #[trigger] nets[j]).id,
{
    let last = route(node_ports, lanes, nets, Map::empty())->Ok_0;
    lemma_route(node_ports, lanes, nets, Map::empty());
    lemma_lane_port_use(node_ports, lanes, lanes.len() as int, port);
    assert(!is_lane_end(lanes, port));
    assert(is_port_of_nets(node_ports, nets, 0, last, port));
}

/// Once no lane is left, an edge that still waits cannot be given one: the
/// pass fails, and names the first such edge and its net.
pub proof fn lemma_lanes_exhausted(
    lanes: Seq<Lane>,
    edge_nets: Seq<PendingEdgeNet>,
    k: int,
    state: RouterState,
)
    requires
        0 <= k < edge_nets.len(),
        forall|index: int| 0 <= index < lanes.len() ==> !state.available.contains(index),
    ensures
        complete_edges(lanes, edge_nets, k, state) == Err::<RouterState, crate::error::Error>(
            crate::error::Error::LaneExhaustion {
                edge: edge_nets[k].edge,
                net_id: edge_nets[k].net_id,
            },
        ),
{
    crate::search::lemma_first_index_none(
        0,
        lanes.len() as int,
        crate::set::lane_set::free_and_wanted(
            lanes,
            state.available,
            touching(edge_nets[k].edge),
        ),
    );
}

/// A lane is used once only: the lane that is taken for a net was
/// available, and is not available afterwards.
pub proof fn lemma_lane_is_used_once(
    lanes: Seq<Lane>,
    state: RouterState,
    wanted: spec_fn(Lane) -> bool,
    net_id: NetId,
)
    requires
        first_free_lane(lanes, state.available, wanted) is Some,
    ensures
        state.available.contains(first_free_lane(lanes, state.available, wanted)->0),
        close_lane(
            lanes,
            state,
            first_free_lane(lanes, state.available, wanted)->0,
            net_id,
        ) matches Ok(next) ==> !next.available.contains(
            first_free_lane(lanes, state.available, wanted)->0,
        ) && next.available.subset_of(state.available),
{
    lemma_first_free_lane(lanes, state.available, wanted);
}

/// The lanes of the board that are still available.
pub open spec fn free_lanes(lanes: Seq<Lane>, available: Set<int>) -> Set<int> {
    Set::new(|index: int| 0 <= index < lanes.len() && available.contains(index))
}

/// No more lanes are free than the board has.
pub proof fn lemma_free_lanes(lanes: Seq<Lane>, available: Set<int>)
    ensures
        free_lanes(lanes, available).finite(),
        free_lanes(lanes, available).len() <= lanes.len(),
{
    vstd::set_lib::lemma_int_range(0, lanes.len() as int);
    let all = vstd::set_lib::set_int_range(0, lanes.len() as int);
    assert(free_lanes(lanes, available).subset_of(all));
    vstd::set_lib::lemma_set_subset_finite(all, free_lanes(lanes, available));
    vstd::set_lib::lemma_len_subset(free_lanes(lanes, available), all);
}

/// The edges that wait are given their lanes only where as many lanes are
/// free as edges wait: a netlist that needs more lanes than the board has
/// left is refused.
pub proof fn lemma_complete_edges_needs_lanes(
    lanes: Seq<Lane>,
    edge_nets: Seq<PendingEdgeNet>,
    k: int,
    state: RouterState,
)
    requires
        0 <= k <= edge_nets.len(),
    ensures
        complete_edges(lanes, edge_nets, k, state) is Ok ==> edge_nets.len() - k <= free_lanes(
            lanes,
            state.available,
        ).len(),
    decreases edge_nets.len() - k,
{
    lemma_free_lanes(lanes, state.available);
    if k < edge_nets.len() {
        let wanted = touching(edge_nets[k].edge);
        lemma_first_free_lane(lanes, state.available, wanted);
        if let Some(index) = first_free_lane(lanes, state.available, wanted) {
            if let Ok(next) = close_lane(lanes, state, index, edge_nets[k].net_id) {
                lemma_complete_edges_needs_lanes(lanes, edge_nets, k + 1, next);
                lemma_free_lanes(lanes, next.available);
                assert(free_lanes(lanes, next.available) =~= free_lanes(
                    lanes,
                    state.available,
                ).remove(index));
            }
        }
    }
}

/// A pass that succeeds has given every edge that waited at the end a lane
/// of its own, so that no more edges waited than the board has lanes.
pub proof fn lemma_route_needs_lanes<N: Node>(
    node_ports: Seq<NodePort<N>>,
    lanes: Seq<Lane>,
    nets: Seq<Net<N>>,
    status: Map<Port, NetId>,
)
    requires
        route(node_ports, lanes, nets, status) is Ok,
    ensures
        ({
            let routed = route_nets(node_ports, lanes, nets, 0, initial_state(status))->Ok_0;
            let bounced = resolve_bounces(node_ports, lanes, routed.bounces, 0, routed)->Ok_0;
            bounced.edge_nets.len() <= lanes.len()
        }),
{
    let routed = route_nets(node_ports, lanes, nets, 0, initial_state(status))->Ok_0;
    let bounced = resolve_bounces(node_ports, lanes, routed.bounces, 0, routed)->Ok_0;
    lemma_complete_edges_needs_lanes(lanes, bounced.edge_nets, 0, bounced);
    lemma_free_lanes(lanes, bounced.available);
}

/// The outcome of a pass is a function of the netlist and the board: two
/// passes over the same netlist on the same board, from the same
/// assignment, end alike, and their crosspoints are the same, one by one.
pub proof fn lemma_passes_agree<N: Node>(
    node_ports: Seq<NodePort<N>>,
    lanes: Seq<Lane>,
    nets: Seq<Net<N>>,
    status: Map<Port, NetId>,
    first: Result<Map<Port, NetId>, crate::error::Error>,
    second: Result<Map<Port, NetId>, crate::error::Error>,
)
    requires
        first == route(node_ports, lanes, nets, status),
        second == route(node_ports, lanes, nets, status),
    ensures
        first == second,
        first matches Ok(one) ==> crosspoints_from(one, 0) == crosspoints_from(second->Ok_0, 0),
{
}

} // verus!
