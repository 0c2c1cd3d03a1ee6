//! What the router computes, stated as functions on plain values.
//!
//! The router goes through the nets in the order given. For each net it
//! assigns the ports of the net's nodes, and joins the edges that the net
//! needs by direct lanes, as far as there are any. What it cannot join
//! directly waits as a bounce; a net on a single edge waits for any free
//! lane on that edge. Then the bounces are resolved, and at last the
//! waiting edges are given their lanes.

use vstd::prelude::*;

use crate::board::node_port_of;
use crate::board_spec::{port_use, NodePort};
use crate::chip_status::{spec_set, spec_set_lane};
use crate::edge::Edge;
use crate::error::Error;
use crate::lane::Lane;
use crate::map::port_map::PortUse;
use crate::net::Net;
use crate::net_id::NetId;
use crate::node::Node;
use crate::port::Port;
use crate::search::{first_index, lemma_first_index};
use crate::set::edge_set::{edges_in_order, first_edge};
use crate::set::lane_set::{first_free_lane, lemma_first_free_lane};
use crate::set::node_set::ids_from;

verus! {

/// How many entries each of the two lists of waiting connections can hold.
pub const MAX_NETS: usize = 60;

/// An edge that waits for a free lane, for the given net.
#[derive(Copy, Clone, Debug)]
pub struct PendingEdgeNet {
    pub edge: Edge,
    pub net_id: NetId,
}

/// Two edges of a net that no direct lane could join.
#[derive(Copy, Clone, Debug)]
pub struct PendingBounce {
    pub edge_a: Edge,
    pub edge_b: Edge,
    pub net_id: NetId,
}

/// Where the router stands: the assignment so far, the lanes that are still
/// available, and what waits.
pub struct RouterState {
    pub status: Map<Port, NetId>,
    pub available: Set<int>,
    pub edge_nets: Seq<PendingEdgeNet>,
    pub bounces: Seq<PendingBounce>,
}

/// Says of a lane whether it connects the two edges.
pub open spec fn connecting(a: Edge, b: Edge) -> spec_fn(Lane) -> bool {
    |lane: Lane| lane.spec_connects(a, b)
}

/// Says of a lane whether it has an end on the edge.
pub open spec fn touching(edge: Edge) -> spec_fn(Lane) -> bool {
    |lane: Lane| lane.spec_touches(edge)
}

/// The state in which the lane with the given index is taken.
pub open spec fn without_lane(state: RouterState, index: int) -> RouterState {
    RouterState { available: state.available.remove(index), ..state }
}

/// The state with another assignment.
pub open spec fn with_status(state: RouterState, status: Map<Port, NetId>) -> RouterState {
    RouterState { status, ..state }
}

/// Lets the edge wait for a free lane, unless too many wait already.
pub open spec fn push_edge_net(state: RouterState, item: PendingEdgeNet) -> Result<
    RouterState,
    Error,
> {
    if state.edge_nets.len() < MAX_NETS {
        Ok(RouterState { edge_nets: state.edge_nets.push(item), ..state })
    } else {
        Err(Error::PendingOverflow { net_id: item.net_id })
    }
}

/// Lets the two edges wait for a bounce, unless too many wait already.
pub open spec fn push_bounce(state: RouterState, item: PendingBounce) -> Result<
    RouterState,
    Error,
> {
    if state.bounces.len() < MAX_NETS {
        Ok(RouterState { bounces: state.bounces.push(item), ..state })
    } else {
        Err(Error::PendingOverflow { net_id: item.net_id })
    }
}

/// Takes the lane with the given index for the net: the lane is no longer
/// available, and both its ends are assigned to the net.
pub open spec fn close_lane(
    lanes: Seq<Lane>,
    state: RouterState,
    index: int,
    net_id: NetId,
) -> Result<RouterState, Error> {
    match spec_set_lane(state.status, lanes[index], net_id) {
        Ok(status) => Ok(with_status(without_lane(state, index), status)),
        Err(error) => Err(error),
    }
}

/// Assigns to the net the ports of its nodes, from the `k`th on, in the
/// order of `ids`. Returns the assignment, and `edges` with the edges across
/// from those ports added.
pub open spec fn assign_ports<N: Node>(
    node_ports: Seq<NodePort<N>>,
    ids: Seq<int>,
    k: int,
    net_id: NetId,
    status: Map<Port, NetId>,
    edges: Set<Edge>,
) -> Result<(Map<Port, NetId>, Set<Edge>), Error>
    decreases ids.len() - k,
{
    if k >= ids.len() {
        Ok((status, edges))
    } else {
        match node_port_of(node_ports, ids[k] as u8) {
            None => Err(Error::UnmappedNode { node: ids[k] as u8 }),
            Some(port) => match spec_set(status, port, net_id) {
                Err(error) => Err(error),
                Ok(next) => assign_ports(
                    node_ports,
                    ids,
                    k + 1,
                    net_id,
                    next,
                    edges.insert(port.spec_edge().spec_orthogonal()),
                ),
            },
        }
    }
}

/// Says of a position in `connected` whether a free lane connects the edge
/// there with `unconnected`.
pub open spec fn has_lane_to(
    lanes: Seq<Lane>,
    available: Set<int>,
    connected: Seq<Edge>,
    unconnected: Edge,
) -> spec_fn(int) -> bool {
    |j: int| first_free_lane(lanes, available, connecting(connected[j], unconnected)) is Some
}

/// Says of a position in `unconnected` whether a free lane connects the
/// edge there with one of the connected edges.
pub open spec fn has_lane_from(
    lanes: Seq<Lane>,
    available: Set<int>,
    unconnected: Seq<Edge>,
    connected: Seq<Edge>,
) -> spec_fn(int) -> bool {
    |i: int|
        first_index(
            0,
            connected.len() as int,
            has_lane_to(lanes, available, connected, unconnected[i]),
        ) is Some
}

/// The first direct lane between an unconnected edge and a connected one:
/// the first unconnected edge that has one, with the first connected edge
/// that it has one to, and between the two the first free lane. Returns
/// the unconnected edge and the index of the lane.
pub open spec fn find_direct(
    lanes: Seq<Lane>,
    available: Set<int>,
    unconnected: Seq<Edge>,
    connected: Seq<Edge>,
) -> Option<(Edge, int)> {
    match first_index(
        0,
        unconnected.len() as int,
        has_lane_from(lanes, available, unconnected, connected),
    ) {
        Some(i) => {
            let j = first_index(
                0,
                connected.len() as int,
                has_lane_to(lanes, available, connected, unconnected[i]),
            )->0;
            Some(
                (
                    unconnected[i],
                    first_free_lane(
                        lanes,
                        available,
                        connecting(connected[j], unconnected[i]),
                    )->0,
                ),
            )
        },
        None => None,
    }
}

/// The direct lane that `find_direct` returns is still available, and the
/// edge is one of the unconnected ones.
pub proof fn lemma_find_direct(
    lanes: Seq<Lane>,
    available: Set<int>,
    unconnected: Seq<Edge>,
    connected: Seq<Edge>,
)
    ensures
        find_direct(lanes, available, unconnected, connected) matches Some((edge, index))
            ==> unconnected.contains(edge) && 0 <= index < lanes.len() && available.contains(index),
{
    let outer = has_lane_from(lanes, available, unconnected, connected);
    lemma_first_index(0, unconnected.len() as int, outer);
    if let Some(i) = first_index(0, unconnected.len() as int, outer) {
        let inner = has_lane_to(lanes, available, connected, unconnected[i]);
        lemma_first_index(0, connected.len() as int, inner);
        let j = first_index(0, connected.len() as int, inner)->0;
        lemma_first_free_lane(lanes, available, connecting(connected[j], unconnected[i]));
    }
}

/// Joins the unconnected edges of a net to the connected ones, one at a
/// time, until none is left. An edge that a direct lane reaches is joined by
/// that lane. Where no direct lane reaches any of them, the first
/// unconnected edge is set aside as a bounce from the first connected edge.
pub open spec fn grow(
    lanes: Seq<Lane>,
    state: RouterState,
    unconnected: Set<Edge>,
    connected: Set<Edge>,
    net_id: NetId,
) -> Result<RouterState, Error>
    decreases unconnected.len(),
{
    if !unconnected.finite() || unconnected.len() == 0 {
        Ok(state)
    } else {
        match find_direct(
            lanes,
            state.available,
            edges_in_order(unconnected),
            edges_in_order(connected),
        ) {
            Some((edge, index)) => {
                if unconnected.contains(edge) {
                    match close_lane(lanes, state, index, net_id) {
                        Ok(next) => grow(
                            lanes,
                            next,
                            unconnected.remove(edge),
                            connected.insert(edge),
                            net_id,
                        ),
                        Err(error) => Err(error),
                    }
                } else {
                    Ok(state)
                }
            },
            None => match (first_edge(connected), first_edge(unconnected)) {
                (Some(edge_a), Some(edge_b)) => {
                    if unconnected.contains(edge_b) {
                        match push_bounce(state, PendingBounce { edge_a, edge_b, net_id }) {
                            Ok(next) => grow(
                                lanes,
                                next,
                                unconnected.remove(edge_b),
                                connected,
                                net_id,
                            ),
                            Err(error) => Err(error),
                        }
                    } else {
                        Ok(state)
                    }
                },
                _ => Ok(state),
            },
        }
    }
}

/// Connects the edges of one net. A single edge waits for any free lane.
/// Of several edges the first is the seed, and the others are joined to it.
pub open spec fn connect_net(
    lanes: Seq<Lane>,
    state: RouterState,
    edges: Set<Edge>,
    net_id: NetId,
) -> Result<RouterState, Error> {
    match first_edge(edges) {
        None => Ok(state),
        Some(start) => {
            if edges.remove(start) == Set::<Edge>::empty() {
                push_edge_net(state, PendingEdgeNet { edge: start, net_id })
            } else {
                grow(lanes, state, edges.remove(start), set![start], net_id)
            }
        },
    }
}

/// Routes one net, as far as direct lanes go.
pub open spec fn route_net<N: Node>(
    node_ports: Seq<NodePort<N>>,
    lanes: Seq<Lane>,
    state: RouterState,
    net: Net<N>,
) -> Result<RouterState, Error> {
    match assign_ports(
        node_ports,
        ids_from(net.nodes.ids(), 0),
        0,
        net.id,
        state.status,
        Set::empty(),
    ) {
        Ok((status, edges)) => connect_net(lanes, with_status(state, status), edges, net.id),
        Err(error) => Err(error),
    }
}

/// Routes the nets from the `k`th on, in order.
pub open spec fn route_nets<N: Node>(
    node_ports: Seq<NodePort<N>>,
    lanes: Seq<Lane>,
    nets: Seq<Net<N>>,
    k: int,
    state: RouterState,
) -> Result<RouterState, Error>
    decreases nets.len() - k,
{
    if k >= nets.len() {
        Ok(state)
    } else {
        match route_net(node_ports, lanes, state, nets[k]) {
            Ok(next) => route_nets(node_ports, lanes, nets, k + 1, next),
            Err(error) => Err(error),
        }
    }
}

/// The index of the lane that ends at the given port, if that lane is still
/// available.
pub open spec fn free_lane_at<N: Node>(
    node_ports: Seq<NodePort<N>>,
    lanes: Seq<Lane>,
    available: Set<int>,
    port: Port,
) -> Option<int> {
    match port_use(node_ports, lanes, port) {
        PortUse::Lane(index) => if available.contains(index as int) {
            Some(index as int)
        } else {
            None
        },
        _ => None,
    }
}

/// Says of a port index whether the port of `edge` with that index is the
/// end of a free lane.
pub open spec fn leaves_at<N: Node>(
    node_ports: Seq<NodePort<N>>,
    lanes: Seq<Lane>,
    available: Set<int>,
    edge: Edge,
) -> spec_fn(int) -> bool {
    |k: int| free_lane_at(node_ports, lanes, available, edge.spec_port(k)) is Some
}

/// Says of a port index whether the port of `edge` with that index is the
/// end of a free lane whose other end lies on `target`.
pub open spec fn hops_at<N: Node>(
    node_ports: Seq<NodePort<N>>,
    lanes: Seq<Lane>,
    available: Set<int>,
    edge: Edge,
    target: Edge,
) -> spec_fn(int) -> bool {
    |k: int|
        free_lane_at(node_ports, lanes, available, edge.spec_port(k)) matches Some(index)
            && lanes[index].spec_opposite(edge.spec_port(k)).spec_edge() == target
}

/// The first free lane from a port of `edge` to `target`, by ascending
/// port index.
pub open spec fn first_hop<N: Node>(
    node_ports: Seq<NodePort<N>>,
    lanes: Seq<Lane>,
    available: Set<int>,
    edge: Edge,
    target: Edge,
) -> Option<int> {
    match first_index(
        0,
        edge.spec_dimension().spec_port_count(),
        hops_at(node_ports, lanes, available, edge, target),
    ) {
        Some(k) => free_lane_at(node_ports, lanes, available, edge.spec_port(k)),
        None => None,
    }
}

/// The first free lane that leaves a port of `edge`, by ascending port
/// index.
pub open spec fn first_leaving<N: Node>(
    node_ports: Seq<NodePort<N>>,
    lanes: Seq<Lane>,
    available: Set<int>,
    edge: Edge,
) -> Option<int> {
    match first_index(
        0,
        edge.spec_dimension().spec_port_count(),
        leaves_at(node_ports, lanes, available, edge),
    ) {
        Some(k) => free_lane_at(node_ports, lanes, available, edge.spec_port(k)),
        None => None,
    }
}

/// The lanes of a bounce from `edge_a` to `edge_b` that starts with the
/// free lane at the port of `edge_a` with index `k`. That lane leads to an
/// edge of another chip. Where a free lane leads from the other edge of
/// that chip to `edge_b`, the two lanes make the bounce. Else, where a free
/// lane leads from the same edge to `edge_b`, and a free lane leaves the
/// other edge of that chip, the three make the bounce.
pub open spec fn bounce_via<N: Node>(
    node_ports: Seq<NodePort<N>>,
    lanes: Seq<Lane>,
    available: Set<int>,
    edge_a: Edge,
    edge_b: Edge,
    k: int,
) -> Option<Seq<int>> {
    match free_lane_at(node_ports, lanes, available, edge_a.spec_port(k)) {
        None => None,
        Some(index0) => {
            let landing = lanes[index0].spec_opposite(edge_a.spec_port(k)).spec_edge();
            match first_hop(node_ports, lanes, available, landing.spec_orthogonal(), edge_b) {
                Some(index1) => Some(seq![index0, index1]),
                None => match (
                    first_hop(node_ports, lanes, available, landing, edge_b),
                    first_leaving(node_ports, lanes, available, landing.spec_orthogonal()),
                ) {
                    (Some(index1), Some(index2)) => Some(seq![index0, index1, index2]),
                    _ => None,
                },
            }
        },
    }
}

/// Says of a port index whether a bounce from `edge_a` to `edge_b` starts
/// at the port of `edge_a` with that index.
pub open spec fn bounces_at<N: Node>(
    node_ports: Seq<NodePort<N>>,
    lanes: Seq<Lane>,
    available: Set<int>,
    edge_a: Edge,
    edge_b: Edge,
) -> spec_fn(int) -> bool {
    |k: int| bounce_via(node_ports, lanes, available, edge_a, edge_b, k) is Some
}

/// The lanes of the first bounce from `edge_a` to `edge_b` by way of
/// another chip, by ascending index of the port of `edge_a` at which it
/// starts.
pub open spec fn find_bounce<N: Node>(
    node_ports: Seq<NodePort<N>>,
    lanes: Seq<Lane>,
    available: Set<int>,
    edge_a: Edge,
    edge_b: Edge,
) -> Option<Seq<int>> {
    match first_index(
        0,
        edge_a.spec_dimension().spec_port_count(),
        bounces_at(node_ports, lanes, available, edge_a, edge_b),
    ) {
        Some(k) => bounce_via(node_ports, lanes, available, edge_a, edge_b, k),
        None => None,
    }
}

/// Assigns both ends of the lanes with the given indices, from the `k`th
/// on, to the net.
pub open spec fn set_lanes(
    lanes: Seq<Lane>,
    indices: Seq<int>,
    k: int,
    net_id: NetId,
    status: Map<Port, NetId>,
) -> Result<Map<Port, NetId>, Error>
    decreases indices.len() - k,
{
    if k >= indices.len() {
        Ok(status)
    } else {
        match spec_set_lane(status, lanes[indices[k]], net_id) {
            Ok(next) => set_lanes(lanes, indices, k + 1, net_id, next),
            Err(error) => Err(error),
        }
    }
}

/// Resolves one bounce. A free lane from the other edge of the first chip
/// to the second edge is taken, if there is one, and the first edge then
/// waits for any free lane. Else the same is tried with the two edges
/// exchanged. Else a bounce by way of another chip is taken.
pub open spec fn resolve_bounce<N: Node>(
    node_ports: Seq<NodePort<N>>,
    lanes: Seq<Lane>,
    state: RouterState,
    bounce: PendingBounce,
) -> Result<RouterState, Error> {
    let PendingBounce { edge_a, edge_b, net_id } = bounce;
    match first_free_lane(lanes, state.available, connecting(edge_a.spec_orthogonal(), edge_b)) {
        Some(index) => match close_lane(lanes, state, index, net_id) {
            Ok(next) => push_edge_net(next, PendingEdgeNet { edge: edge_a, net_id }),
            Err(error) => Err(error),
        },
        None => match first_free_lane(
            lanes,
            state.available,
            connecting(edge_a, edge_b.spec_orthogonal()),
        ) {
            Some(index) => match close_lane(lanes, state, index, net_id) {
                Ok(next) => push_edge_net(next, PendingEdgeNet { edge: edge_b, net_id }),
                Err(error) => Err(error),
            },
            None => match find_bounce(node_ports, lanes, state.available, edge_a, edge_b) {
                Some(indices) => match set_lanes(lanes, indices, 0, net_id, state.status) {
                    Ok(status) => Ok(
                        RouterState {
                            status,
                            available: state.available.difference(indices.to_set()),
                            ..state
                        },
                    ),
                    Err(error) => Err(error),
                },
                None => Err(Error::NoBouncePath { edge_a, edge_b, net_id }),
            },
        },
    }
}

/// Resolves the given bounces, from the `k`th on, in order.
pub open spec fn resolve_bounces<N: Node>(
    node_ports: Seq<NodePort<N>>,
    lanes: Seq<Lane>,
    bounces: Seq<PendingBounce>,
    k: int,
    state: RouterState,
) -> Result<RouterState, Error>
    decreases bounces.len() - k,
{
    if k >= bounces.len() {
        Ok(state)
    } else {
        match resolve_bounce(node_ports, lanes, state, bounces[k]) {
            Ok(next) => resolve_bounces(node_ports, lanes, bounces, k + 1, next),
            Err(error) => Err(error),
        }
    }
}

/// Gives each of the waiting edges, from the `k`th on, the first free lane
/// that has an end on it.
pub open spec fn complete_edges(
    lanes: Seq<Lane>,
    edge_nets: Seq<PendingEdgeNet>,
    k: int,
    state: RouterState,
) -> Result<RouterState, Error>
    decreases edge_nets.len() - k,
{
    if k >= edge_nets.len() {
        Ok(state)
    } else {
        match first_free_lane(lanes, state.available, touching(edge_nets[k].edge)) {
            Some(index) => match close_lane(lanes, state, index, edge_nets[k].net_id) {
                Ok(next) => complete_edges(lanes, edge_nets, k + 1, next),
                Err(error) => Err(error),
            },
            None => Err(
                Error::LaneExhaustion { edge: edge_nets[k].edge, net_id: edge_nets[k].net_id },
            ),
        }
    }
}

/// The state in which the router starts: the given assignment, every lane
/// available, and nothing waiting.
pub open spec fn initial_state(status: Map<Port, NetId>) -> RouterState {
    RouterState {
        status,
        available: Set::new(|index: int| 0 <= index < 128),
        edge_nets: Seq::empty(),
        bounces: Seq::empty(),
    }
}

/// The assignment that routing the nets on the board ends with, or the
/// error that stops it.
pub open spec fn route<N: Node>(
    node_ports: Seq<NodePort<N>>,
    lanes: Seq<Lane>,
    nets: Seq<Net<N>>,
    status: Map<Port, NetId>,
) -> Result<Map<Port, NetId>, Error> {
    match route_nets(node_ports, lanes, nets, 0, initial_state(status)) {
        Err(error) => Err(error),
        Ok(routed) => match resolve_bounces(node_ports, lanes, routed.bounces, 0, routed) {
            Err(error) => Err(error),
            Ok(bounced) => match complete_edges(lanes, bounced.edge_nets, 0, bounced) {
                Err(error) => Err(error),
                Ok(completed) => Ok(completed.status),
            },
        },
    }
}

} // verus!
