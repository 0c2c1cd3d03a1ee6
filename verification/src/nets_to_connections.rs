//! The router: from a netlist to the assignment of ports.

use vstd::prelude::*;

use crate::board::Board;
use crate::chip_status::{spec_set_lane, ChipStatus};
use crate::edge::Edge;
use crate::connectivity::is_connected;
use crate::invariants::{lemma_route, net_ids_distinct, routes_nets};
use crate::joining::{lemma_routed_net_is_connected, sound_wiring};
use crate::error::Error;
use crate::lane::Lane;
use crate::net::Net;
use crate::net_id::NetId;
use crate::node::Node;
use crate::pending::{
    bounce_items, bounces_as_slice, bounces_new, bounces_push, edge_net_items, edge_nets_as_slice,
    edge_nets_new, edge_nets_push,
};
use crate::port::Port;
use crate::route::{
    assign_ports, bounce_via, bounces_at, complete_edges, connect_net, connecting, find_bounce,
    find_direct, first_hop, first_leaving, free_lane_at, grow, has_lane_from, has_lane_to, hops_at,
    initial_state, leaves_at, lemma_find_direct, resolve_bounce, resolve_bounces, route, route_nets,
    set_lanes, touching, PendingBounce, PendingEdgeNet, RouterState, MAX_NETS,
};
use crate::search::{lemma_first_index_is, lemma_first_index_none};
use crate::set::edge_set::{edges_in_order, lemma_edges_from, lemma_first_edge_from, EdgeSet};
use crate::set::lane_set::{first_free_lane, free_and_wanted, is_first_accepted, LaneSet};
use crate::set::node_set::ids_from;

verus! {

/// Removes the first available lane that connects the two edges, and
/// returns it.
fn take_connecting(lanes: &mut LaneSet<'_>, a: Edge, b: Edge) -> (r: Option<Lane>)
    ensures
        final(lanes).lanes() == old(lanes).lanes(),
        match first_free_lane(old(lanes).lanes(), old(lanes).available(), connecting(a, b)) {
            Some(index) => 0 <= index < old(lanes).lanes().len() && r == Some(
                old(lanes).lanes()[index],
            ) && final(lanes).available() == old(lanes).available().remove(index),
            None => r is None && final(lanes).available() == old(lanes).available(),
        },
{
    let predicate = |lane: Lane| -> (accepted: bool)
        ensures
            accepted == lane.spec_connects(a, b),
        { lane.connects(a, b) };
    let ghost list = lanes.lanes();
    let ghost available = lanes.available();
    let taken = lanes.take(predicate);
    proof {
        let found = free_and_wanted(list, available, connecting(a, b));
        match taken {
            Some(lane) => {
                let index = choose|index: int|
                    is_first_accepted(list, available, predicate, index) && lane
                        == #[trigger] list[index] && lanes.available() == available.remove(index);
                assert forall|j: int| 0 <= j < index implies !#[trigger] found(j) by {
                    if available.contains(j) {
                        assert(predicate.ensures((list[j],), false));
                    }
                }
                lemma_first_index_is(0, list.len() as int, found, index);
            },
            None => {
                assert forall|j: int| 0 <= j < list.len() implies !#[trigger] found(j) by {
                    if available.contains(j) {
                        assert(predicate.ensures((list[j],), false));
                    }
                }
                lemma_first_index_none(0, list.len() as int, found);
            },
        }
    }
    taken
}

/// Removes the first available lane that has an end on the edge, and
/// returns it.
fn take_touching(lanes: &mut LaneSet<'_>, edge: Edge) -> (r: Option<Lane>)
    ensures
        final(lanes).lanes() == old(lanes).lanes(),
        match first_free_lane(old(lanes).lanes(), old(lanes).available(), touching(edge)) {
            Some(index) => 0 <= index < old(lanes).lanes().len() && r == Some(
                old(lanes).lanes()[index],
            ) && final(lanes).available() == old(lanes).available().remove(index),
            None => r is None && final(lanes).available() == old(lanes).available(),
        },
{
    let predicate = |lane: Lane| -> (accepted: bool)
        ensures
            accepted == lane.spec_touches(edge),
        { lane.touches(edge) };
    let ghost list = lanes.lanes();
    let ghost available = lanes.available();
    let taken = lanes.take(predicate);
    proof {
        let found = free_and_wanted(list, available, touching(edge));
        match taken {
            Some(lane) => {
                let index = choose|index: int|
                    is_first_accepted(list, available, predicate, index) && lane
                        == #[trigger] list[index] && lanes.available() == available.remove(index);
                assert forall|j: int| 0 <= j < index implies !#[trigger] found(j) by {
                    if available.contains(j) {
                        assert(predicate.ensures((list[j],), false));
                    }
                }
                lemma_first_index_is(0, list.len() as int, found, index);
            },
            None => {
                assert forall|j: int| 0 <= j < list.len() implies !#[trigger] found(j) by {
                    if available.contains(j) {
                        assert(predicate.ensures((list[j],), false));
                    }
                }
                lemma_first_index_none(0, list.len() as int, found);
            },
        }
    }
    taken
}

/// A direct lane, and the unconnected edge that it reaches.
struct DirectLane {
    edge: Edge,
    lane: Lane,
}

/// The state of the router that the four values make together.
pub open spec fn state_of(
    chip_status: ChipStatus,
    lanes: LaneSet<'_>,
    edge_nets: heapless::Vec<PendingEdgeNet, MAX_NETS>,
    bounces: heapless::Vec<PendingBounce, MAX_NETS>,
) -> RouterState {
    RouterState {
        status: chip_status@,
        available: lanes.available(),
        edge_nets: edge_net_items(edge_nets),
        bounces: bounce_items(bounces),
    }
}

/// Assigns to the net the port of each of its nodes, and collects the
/// edges across from those ports: the edges that the net needs connected.
fn assign_net_ports<N: Node, const NP: usize, const L: usize, const B: usize>(
    net: &Net<N>,
    chip_status: &mut ChipStatus,
    board: &Board<N, NP, L, B>,
) -> (r: Result<EdgeSet, Error>)
    ensures
        match assign_ports(
            board.spec_node_ports(),
            ids_from(net.nodes.ids(), 0),
            0,
            net.id,
            old(chip_status)@,
            Set::empty(),
        ) {
            Ok((status, edges)) => r is Ok && final(chip_status)@ == status && r->Ok_0@ == edges,
            Err(error) => r is Err && r->Err_0 == error,
        },
{
    let nodes = net.nodes.iter();
    let ghost ids = ids_from(net.nodes.ids(), 0);
    let ghost node_ports = board.spec_node_ports();
    let mut edges = EdgeSet::empty();
    let mut k: usize = 0;
    while k < nodes.len()
        invariant
            k <= nodes@.len(),
            ids == ids_from(net.nodes.ids(), 0),
            node_ports == board.spec_node_ports(),
            nodes@.map_values(|node: N| node.spec_id() as int) == ids,
            assign_ports(node_ports, ids, k as int, net.id, chip_status@, edges@) == assign_ports(
                node_ports,
                ids,
                0,
                net.id,
                old(chip_status)@,
                Set::empty(),
            ),
        decreases nodes@.len() - k,
    {
        let node = nodes[k];
        proof {
            assert(ids[k as int] == node.spec_id() as int);
            assert(ids.len() == nodes@.len());
        }
        match board.node_to_port(node) {
            None => {
                return Err(Error::UnmappedNode { node: node.id() });
            },
            Some(port) => {
                match chip_status.set(port, net.id) {
                    Ok(()) => {},
                    Err(error) => {
                        return Err(error);
                    },
                }
                edges.insert(port.edge().orthogonal());
            },
        }
        k += 1;
    }
    Ok(edges)
}

/// Looks for a direct lane from one of the unconnected edges to one of the
/// connected ones, and takes the first that there is.
fn find_direct_lane(edges: &EdgeSet, connected_edges: &EdgeSet, lanes: &mut LaneSet<'_>) -> (r:
    Option<DirectLane>)
    ensures
        final(lanes).lanes() == old(lanes).lanes(),
        match find_direct(
            old(lanes).lanes(),
            old(lanes).available(),
            edges_in_order(edges@),
            edges_in_order(connected_edges@),
        ) {
            Some((edge, index)) => r is Some && r->0.edge == edge && 0 <= index < old(
                lanes,
            ).lanes().len() && r->0.lane == old(lanes).lanes()[index] && final(lanes).available()
                == old(lanes).available().remove(index),
            None => r is None && final(lanes).available() == old(lanes).available(),
        },
{
    let unconnected = edges.iter();
    let connected = connected_edges.iter();
    let ghost list = lanes.lanes();
    let ghost available = lanes.available();
    let ghost outer = has_lane_from(list, available, unconnected@, connected@);
    let mut i: usize = 0;
    while i < unconnected.len()
        invariant
            i <= unconnected@.len(),
            list == lanes.lanes(),
            list == old(lanes).lanes(),
            available == lanes.available(),
            available == old(lanes).available(),
            unconnected@ == edges_in_order(edges@),
            connected@ == edges_in_order(connected_edges@),
            outer == has_lane_from(list, available, unconnected@, connected@),
            forall|k: int| 0 <= k < i ==> !#[trigger] outer(k),
        decreases unconnected@.len() - i,
    {
        let ghost inner = has_lane_to(list, available, connected@, unconnected@[i as int]);
        let mut j: usize = 0;
        while j < connected.len()
            invariant
                j <= connected@.len(),
                i < unconnected@.len(),
                list == lanes.lanes(),
                list == old(lanes).lanes(),
                available == lanes.available(),
                available == old(lanes).available(),
                unconnected@ == edges_in_order(edges@),
                connected@ == edges_in_order(connected_edges@),
                inner == has_lane_to(list, available, connected@, unconnected@[i as int]),
                outer == has_lane_from(list, available, unconnected@, connected@),
                forall|k: int| 0 <= k < i ==> !#[trigger] outer(k),
                forall|k: int| 0 <= k < j ==> !#[trigger] inner(k),
            decreases connected@.len() - j,
        {
            match take_connecting(lanes, connected[j], unconnected[i]) {
                Some(lane) => {
                    proof {
                        lemma_first_index_is(0, connected@.len() as int, inner, j as int);
                        lemma_first_index_is(0, unconnected@.len() as int, outer, i as int);
                    }
                    return Some(DirectLane { edge: unconnected[i], lane });
                },
                None => {},
            }
            j += 1;
        }
        proof {
            lemma_first_index_none(0, connected@.len() as int, inner);
        }
        i += 1;
    }
    proof {
        lemma_first_index_none(0, unconnected@.len() as int, outer);
    }
    None
}

/// Connects the edges of one net: lets a single edge wait for a free lane,
/// and joins several edges by direct lanes, as far as there are any.
fn connect_net_edges(
    edges: EdgeSet,
    net_id: NetId,
    chip_status: &mut ChipStatus,
    lanes: &mut LaneSet<'_>,
    pending_edge_nets: &mut heapless::Vec<PendingEdgeNet, MAX_NETS>,
    pending_bounces: &mut heapless::Vec<PendingBounce, MAX_NETS>,
) -> (r: Result<(), Error>)
    ensures
        final(lanes).lanes() == old(lanes).lanes(),
        match connect_net(
            old(lanes).lanes(),
            state_of(*old(chip_status), *old(lanes), *old(pending_edge_nets), *old(pending_bounces)),
            edges@,
            net_id,
        ) {
            Ok(state) => r is Ok && state_of(
                *final(chip_status),
                *final(lanes),
                *final(pending_edge_nets),
                *final(pending_bounces),
            ) == state,
            Err(error) => r == Err::<(), Error>(error),
        },
{
    let mut unconnected = edges;
    let ghost list = lanes.lanes();
    let start = match unconnected.pop() {
        None => {
            return Ok(());
        },
        Some(start) => start,
    };
    if unconnected.is_empty() {
        // A net on a single edge. It is connected at the very end, by any free lane.
        if edge_nets_push(pending_edge_nets, PendingEdgeNet { edge: start, net_id }) {
            return Ok(());
        } else {
            return Err(Error::PendingOverflow { net_id });
        }
    }
    let mut connected = EdgeSet::empty();
    connected.insert(start);
    proof {
        assert(connected@ =~= set![start]);
    }
    let ghost goal = connect_net(
        list,
        state_of(*chip_status, *lanes, *pending_edge_nets, *pending_bounces),
        edges@,
        net_id,
    );
    loop
        invariant
            list == lanes.lanes(),
            list == old(lanes).lanes(),
            goal == connect_net(
                list,
                state_of(
                    *old(chip_status),
                    *old(lanes),
                    *old(pending_edge_nets),
                    *old(pending_bounces),
                ),
                edges@,
                net_id,
            ),
            grow(
                list,
                state_of(*chip_status, *lanes, *pending_edge_nets, *pending_bounces),
                unconnected@,
                connected@,
                net_id,
            ) == goal,
        decreases unconnected@.len(),
    {
        let left = unconnected.len();
        if left == 0 {
            return Ok(());
        }
        let ghost state = state_of(*chip_status, *lanes, *pending_edge_nets, *pending_bounces);
        proof {
            lemma_find_direct(
                list,
                state.available,
                edges_in_order(unconnected@),
                edges_in_order(connected@),
            );
            lemma_edges_from(unconnected@, 0);
            lemma_first_edge_from(unconnected@, 0);
            lemma_first_edge_from(connected@, 0);
        }
        // Attempt to find a direct lane for one of the edge pairs.
        match find_direct_lane(&unconnected, &connected, lanes) {
            Some(direct) => {
                match chip_status.set_lane(direct.lane, net_id) {
                    Ok(()) => {},
                    Err(error) => {
                        return Err(error);
                    },
                }
                connected.insert(direct.edge);
                unconnected.remove(direct.edge);
            },
            None => {
                // No direct lane found. Set the first pair aside as a bounce.
                let edge_a = match connected.first() {
                    Some(edge) => edge,
                    None => {
                        return Ok(());
                    },
                };
                let edge_b = match unconnected.pop() {
                    Some(edge) => edge,
                    None => {
                        return Ok(());
                    },
                };
                if !bounces_push(pending_bounces, PendingBounce { edge_a, edge_b, net_id }) {
                    return Err(Error::PendingOverflow { net_id });
                }
            },
        }
    }
}

/// The index of the lane that ends at the given port, if that lane is still
/// available.
fn free_lane_index<N: Node, const NP: usize, const L: usize, const B: usize>(
    board: &Board<N, NP, L, B>,
    lanes: &LaneSet<'_>,
    port: Port,
) -> (r: Option<usize>)
    requires
        lanes.lanes() == board.spec_lanes(),
    ensures
        r matches Some(index) ==> index < board.spec_lanes().len() && board.spec_lanes()[index as int].has_end(
            port,
        ),
        match free_lane_at(
            board.spec_node_ports(),
            board.spec_lanes(),
            lanes.available(),
            port,
        ) {
            Some(index) => r == Some(index as usize),
            None => r is None,
        },
{
    proof {
        use_type_invariant(lanes);
    }
    match board.port_to_lane_index(port) {
        Some(index) => {
            if lanes.has_index(index) {
                Some(index)
            } else {
                None
            }
        },
        None => None,
    }
}

/// Looks for a free lane from a port of `edge` to the edge `target`, port
/// by port.
fn first_hop_lane<N: Node, const NP: usize, const L: usize, const B: usize>(
    board: &Board<N, NP, L, B>,
    lanes: &LaneSet<'_>,
    edge: Edge,
    target: Edge,
) -> (r: Option<usize>)
    requires
        lanes.lanes() == board.spec_lanes(),
    ensures
        r matches Some(index) ==> index < board.spec_lanes().len(),
        match first_hop(
            board.spec_node_ports(),
            board.spec_lanes(),
            lanes.available(),
            edge,
            target,
        ) {
            Some(index) => r == Some(index as usize),
            None => r is None,
        },
{
    let ports = edge.ports();
    let ghost hops = hops_at(
        board.spec_node_ports(),
        board.spec_lanes(),
        lanes.available(),
        edge,
        target,
    );
    let mut k: usize = 0;
    while k < ports.len()
        invariant
            k <= ports@.len(),
            ports@ == edge.spec_ports(),
            lanes.lanes() == board.spec_lanes(),
            hops == hops_at(
                board.spec_node_ports(),
                board.spec_lanes(),
                lanes.available(),
                edge,
                target,
            ),
            forall|j: int| 0 <= j < k ==> !#[trigger] hops(j),
        decreases ports@.len() - k,
    {
        let port = ports[k];
        match free_lane_index(board, lanes, port) {
            Some(index) => {
                let lane = board.lanes()[index];
                if lane.opposite(port).edge() == target {
                    proof {
                        lemma_first_index_is(0, ports@.len() as int, hops, k as int);
                    }
                    return Some(index);
                }
            },
            None => {},
        }
        k += 1;
    }
    proof {
        lemma_first_index_none(0, ports@.len() as int, hops);
    }
    None
}

/// Looks for a free lane that leaves a port of `edge`, port by port.
fn first_leaving_lane<N: Node, const NP: usize, const L: usize, const B: usize>(
    board: &Board<N, NP, L, B>,
    lanes: &LaneSet<'_>,
    edge: Edge,
) -> (r: Option<usize>)
    requires
        lanes.lanes() == board.spec_lanes(),
    ensures
        r matches Some(index) ==> index < board.spec_lanes().len(),
        match first_leaving(board.spec_node_ports(), board.spec_lanes(), lanes.available(), edge) {
            Some(index) => r == Some(index as usize),
            None => r is None,
        },
{
    let ports = edge.ports();
    let ghost leaves = leaves_at(
        board.spec_node_ports(),
        board.spec_lanes(),
        lanes.available(),
        edge,
    );
    let mut k: usize = 0;
    while k < ports.len()
        invariant
            k <= ports@.len(),
            ports@ == edge.spec_ports(),
            lanes.lanes() == board.spec_lanes(),
            leaves == leaves_at(
                board.spec_node_ports(),
                board.spec_lanes(),
                lanes.available(),
                edge,
            ),
            forall|j: int| 0 <= j < k ==> !#[trigger] leaves(j),
        decreases ports@.len() - k,
    {
        match free_lane_index(board, lanes, ports[k]) {
            Some(index) => {
                proof {
                    lemma_first_index_is(0, ports@.len() as int, leaves, k as int);
                }
                return Some(index);
            },
            None => {},
        }
        k += 1;
    }
    proof {
        lemma_first_index_none(0, ports@.len() as int, leaves);
    }
    None
}

/// The lanes of a bounce to `edge_b` that starts with the free lane at the
/// given port, if there is such a bounce.
fn bounce_from<N: Node, const NP: usize, const L: usize, const B: usize>(
    board: &Board<N, NP, L, B>,
    lanes: &LaneSet<'_>,
    edge_a: Edge,
    edge_b: Edge,
    k: usize,
    port: Port,
) -> (r: Option<Vec<usize>>)
    requires
        lanes.lanes() == board.spec_lanes(),
        port == edge_a.spec_port(k as int),
    ensures
        match bounce_via(
            board.spec_node_ports(),
            board.spec_lanes(),
            lanes.available(),
            edge_a,
            edge_b,
            k as int,
        ) {
            Some(indices) => r is Some && same_indices(r->0@, indices) && forall|i: int|
                0 <= i < indices.len() ==> 0 <= #[trigger] indices[i] < board.spec_lanes().len(),
            None => r is None,
        },
{
    let index0 = match free_lane_index(board, lanes, port) {
        Some(index) => index,
        None => {
            return None;
        },
    };
    let lane0 = board.lanes()[index0];
    // The edge on the other chip, at which the first lane arrives.
    let landing = lane0.opposite(port).edge();
    // First check if a lane leads from the other edge of that chip to edge B.
    match first_hop_lane(board, lanes, landing.orthogonal(), edge_b) {
        Some(index1) => {
            let mut path: Vec<usize> = Vec::new();
            path.push(index0);
            path.push(index1);
            return Some(path);
        },
        None => {},
    }
    // Next check if a lane leads from the same edge to edge B. To complete
    // the bounce, the other edge of the chip then needs a free lane too.
    match first_hop_lane(board, lanes, landing, edge_b) {
        Some(index1) => match first_leaving_lane(board, lanes, landing.orthogonal()) {
            Some(index2) => {
                let mut path: Vec<usize> = Vec::new();
                path.push(index0);
                path.push(index1);
                path.push(index2);
                Some(path)
            },
            None => None,
        },
        None => None,
    }
}

/// The two hold the same indices, in the same order.
pub open spec fn same_indices(path: Seq<usize>, indices: Seq<int>) -> bool {
    path.len() == indices.len() && forall|i: int|
        0 <= i < path.len() ==> #[trigger] path[i] as int == indices[i]
}

/// Looks for a bounce from `edge_a` to `edge_b` by way of another chip,
/// starting at the ports of `edge_a` one by one.
fn find_bounce_lanes<N: Node, const NP: usize, const L: usize, const B: usize>(
    board: &Board<N, NP, L, B>,
    lanes: &LaneSet<'_>,
    edge_a: Edge,
    edge_b: Edge,
) -> (r: Option<Vec<usize>>)
    requires
        lanes.lanes() == board.spec_lanes(),
    ensures
        match find_bounce(
            board.spec_node_ports(),
            board.spec_lanes(),
            lanes.available(),
            edge_a,
            edge_b,
        ) {
            Some(indices) => r is Some && same_indices(r->0@, indices) && forall|i: int|
                0 <= i < indices.len() ==> 0 <= #[trigger] indices[i] < board.spec_lanes().len(),
            None => r is None,
        },
{
    let ports = edge_a.ports();
    let ghost bounces = bounces_at(
        board.spec_node_ports(),
        board.spec_lanes(),
        lanes.available(),
        edge_a,
        edge_b,
    );
    let mut k: usize = 0;
    while k < ports.len()
        invariant
            k <= ports@.len(),
            ports@ == edge_a.spec_ports(),
            lanes.lanes() == board.spec_lanes(),
            bounces == bounces_at(
                board.spec_node_ports(),
                board.spec_lanes(),
                lanes.available(),
                edge_a,
                edge_b,
            ),
            forall|j: int| 0 <= j < k ==> !#[trigger] bounces(j),
        decreases ports@.len() - k,
    {
        match bounce_from(board, lanes, edge_a, edge_b, k, ports[k]) {
            Some(path) => {
                proof {
                    lemma_first_index_is(0, ports@.len() as int, bounces, k as int);
                }
                return Some(path);
            },
            None => {},
        }
        k += 1;
    }
    proof {
        lemma_first_index_none(0, ports@.len() as int, bounces);
    }
    None
}

/// Takes the lanes of a bounce for the net: assigns both ends of each to
/// the net, and marks the lanes as taken.
fn close_bounce_lanes<N: Node, const NP: usize, const L: usize, const B: usize>(
    path: &Vec<usize>,
    net_id: NetId,
    chip_status: &mut ChipStatus,
    lanes: &mut LaneSet<'_>,
    board: &Board<N, NP, L, B>,
    Ghost(indices): Ghost<Seq<int>>,
) -> (r: Result<(), Error>)
    requires
        old(lanes).lanes() == board.spec_lanes(),
        same_indices(path@, indices),
        forall|i: int| 0 <= i < indices.len() ==> 0 <= #[trigger] indices[i] < board.spec_lanes().len(),
    ensures
        final(lanes).lanes() == old(lanes).lanes(),
        match set_lanes(board.spec_lanes(), indices, 0, net_id, old(chip_status)@) {
            Ok(status) => r is Ok && final(chip_status)@ == status && final(lanes).available()
                == old(lanes).available().difference(indices.to_set()),
            Err(error) => r == Err::<(), Error>(error),
        },
{
    let mut k: usize = 0;
    while k < path.len()
        invariant
            k <= path@.len(),
            same_indices(path@, indices),
            forall|i: int|
                0 <= i < indices.len() ==> 0 <= #[trigger] indices[i] < board.spec_lanes().len(),
            *lanes == *old(lanes),
            lanes.lanes() == board.spec_lanes(),
            set_lanes(board.spec_lanes(), indices, k as int, net_id, chip_status@) == set_lanes(
                board.spec_lanes(),
                indices,
                0,
                net_id,
                old(chip_status)@,
            ),
        decreases path@.len() - k,
    {
        let index = path[k];
        proof {
            assert(index as int == indices[k as int]);
        }
        match chip_status.set_lane(board.lanes()[index], net_id) {
            Ok(()) => {},
            Err(error) => {
                return Err(error);
            },
        }
        k += 1;
    }
    // Mark the lanes as used.
    let mut k: usize = 0;
    while k < path.len()
        invariant
            k <= path@.len(),
            same_indices(path@, indices),
            forall|i: int|
                0 <= i < indices.len() ==> 0 <= #[trigger] indices[i] < board.spec_lanes().len(),
            lanes.lanes() == old(lanes).lanes(),
            lanes.lanes() == board.spec_lanes(),
            lanes.available() == old(lanes).available().difference(indices.take(k as int).to_set()),
        decreases path@.len() - k,
    {
        let index = path[k];
        proof {
            use_type_invariant(&*lanes);
            assert(index as int == indices[k as int]);
            let before = indices.take(k as int);
            let after = indices.take(k + 1);
            assert(after =~= before.push(index as int));
            assert forall|i: int| after.to_set().contains(i) == before.to_set().insert(
                index as int,
            ).contains(i) by {
                if before.contains(i) {
                    let j = choose|j: int| 0 <= j < before.len() && before[j] == i;
                    assert(after[j] == i);
                }
                if after.contains(i) {
                    let j = choose|j: int| 0 <= j < after.len() && after[j] == i;
                    if j < k {
                        assert(before[j] == i);
                    }
                }
                assert(after[k as int] == index as int);
            }
            assert(after.to_set() =~= before.to_set().insert(index as int));
        }
        lanes.clear_index(index);
        proof {
            assert(lanes.available() =~= old(lanes).available().difference(
                indices.take(k + 1).to_set(),
            ));
        }
        k += 1;
    }
    proof {
        assert(indices.take(path@.len() as int) =~= indices);
    }
    Ok(())
}

/// The state of the router that the values make together.
pub open spec fn state_with(
    chip_status: ChipStatus,
    lanes: LaneSet<'_>,
    edge_nets: heapless::Vec<PendingEdgeNet, MAX_NETS>,
    bounces: Seq<PendingBounce>,
) -> RouterState {
    RouterState {
        status: chip_status@,
        available: lanes.available(),
        edge_nets: edge_net_items(edge_nets),
        bounces,
    }
}

/// Takes the given lane for the net, and lets the edge wait for a free
/// lane.
fn close_and_wait(
    lane: Lane,
    edge: Edge,
    net_id: NetId,
    chip_status: &mut ChipStatus,
    pending_edge_nets: &mut heapless::Vec<PendingEdgeNet, MAX_NETS>,
) -> (r: Result<(), Error>)
    ensures
        match spec_set_lane(old(chip_status)@, lane, net_id) {
            Ok(status) => if edge_net_items(*old(pending_edge_nets)).len() < MAX_NETS {
                r is Ok && final(chip_status)@ == status && edge_net_items(
                    *final(pending_edge_nets),
                ) == edge_net_items(*old(pending_edge_nets)).push(PendingEdgeNet { edge, net_id })
            } else {
                r == Err::<(), Error>(Error::PendingOverflow { net_id })
            },
            Err(error) => r == Err::<(), Error>(error),
        },
{
    match chip_status.set_lane(lane, net_id) {
        Ok(()) => {},
        Err(error) => {
            return Err(error);
        },
    }
    if edge_nets_push(pending_edge_nets, PendingEdgeNet { edge, net_id }) {
        Ok(())
    } else {
        Err(Error::PendingOverflow { net_id })
    }
}

/// Produces the missing connection between two edges by a bounce.
fn resolve_pending_bounce<N: Node, const NP: usize, const L: usize, const B: usize>(
    bounce: PendingBounce,
    chip_status: &mut ChipStatus,
    lanes: &mut LaneSet<'_>,
    pending_edge_nets: &mut heapless::Vec<PendingEdgeNet, MAX_NETS>,
    board: &Board<N, NP, L, B>,
    Ghost(bounces): Ghost<Seq<PendingBounce>>,
) -> (r: Result<(), Error>)
    requires
        old(lanes).lanes() == board.spec_lanes(),
    ensures
        final(lanes).lanes() == old(lanes).lanes(),
        match resolve_bounce(
            board.spec_node_ports(),
            board.spec_lanes(),
            state_with(*old(chip_status), *old(lanes), *old(pending_edge_nets), bounces),
            bounce,
        ) {
            Ok(state) => r is Ok && state_with(
                *final(chip_status),
                *final(lanes),
                *final(pending_edge_nets),
                bounces,
            ) == state,
            Err(error) => r == Err::<(), Error>(error),
        },
{
    let edge_a = bounce.edge_a;
    let edge_b = bounce.edge_b;
    let net_id = bounce.net_id;
    // First try to find a lane from the other edge of one of the two chips.
    // If one is found, the edge itself is hooked up at the very end, by any
    // other free lane.
    let alt_edge_a = edge_a.orthogonal();
    let alt_edge_b = edge_b.orthogonal();
    if let Some(lane) = take_connecting(lanes, alt_edge_a, edge_b) {
        return close_and_wait(lane, edge_a, net_id, chip_status, pending_edge_nets);
    }
    if let Some(lane) = take_connecting(lanes, edge_a, alt_edge_b) {
        return close_and_wait(lane, edge_b, net_id, chip_status, pending_edge_nets);
    }
    match find_bounce_lanes(board, lanes, edge_a, edge_b) {
        Some(path) => {
            let ghost indices = find_bounce(
                board.spec_node_ports(),
                board.spec_lanes(),
                lanes.available(),
                edge_a,
                edge_b,
            )->0;
            close_bounce_lanes(&path, net_id, chip_status, lanes, board, Ghost(indices))
        },
        None => Err(Error::NoBouncePath { edge_a, edge_b, net_id }),
    }
}

/// Turns the given list of nets into connections. The connections are made
/// by assigning ports in `chip_status`, which is expected to be empty to
/// begin with.
///
/// The nets are routed one by one, in the order in which they are given.
/// The lanes of the board tell how the chips are interconnected; of several
/// lanes that would do, the first in the board's list is taken.
pub fn nets_to_connections<N: Node, const NP: usize, const L: usize, const B: usize>(
    nets: &[Net<N>],
    chip_status: &mut ChipStatus,
    board: &Board<N, NP, L, B>,
) -> (r: Result<(), Error>)
    ensures
        match route(board.spec_node_ports(), board.spec_lanes(), nets@, old(chip_status)@) {
            Ok(status) => r is Ok && final(chip_status)@ == status,
            Err(error) => r == Err::<(), Error>(error),
        },
        r is Ok ==> routes_nets(
            board.spec_node_ports(),
            board.spec_lanes(),
            nets@,
            0,
            old(chip_status)@,
            final(chip_status)@,
        ),
        r is Ok && old(chip_status)@ == Map::<Port, NetId>::empty() && net_ids_distinct(nets@)
            && sound_wiring(board.spec_node_ports(), board.spec_lanes()) ==> forall|k: int|
            0 <= k < nets@.len() && (#[trigger] nets@[k]).nodes.ids() != Set::<int>::empty()
                ==> is_connected(
                final(chip_status)@,
                board.spec_node_ports(),
                board.spec_lanes(),
                nets@[k].id,
            ),
{
    let ghost node_ports = board.spec_node_ports();
    let ghost list = board.spec_lanes();
    // Edges that need to be connected at the very end: those of nets that
    // lie on a single edge, and those that a bounce leaves open.
    let mut pending_edge_nets = edge_nets_new();
    // Pairs of edges that need a bounce in between.
    let mut pending_bounces = bounces_new();
    // The lanes that are available: at first all of them. They are taken
    // away as they are assigned to nets.
    let mut lanes = LaneSet::new(board.lanes().as_slice());
    proof {
        assert(state_of(*chip_status, lanes, pending_edge_nets, pending_bounces) == initial_state(
            chip_status@,
        ));
    }
    let mut k: usize = 0;
    while k < nets.len()
        invariant
            k <= nets@.len(),
            node_ports == board.spec_node_ports(),
            list == board.spec_lanes(),
            lanes.lanes() == list,
            route_nets(
                node_ports,
                list,
                nets@,
                k as int,
                state_of(*chip_status, lanes, pending_edge_nets, pending_bounces),
            ) == route_nets(node_ports, list, nets@, 0, initial_state(old(chip_status)@)),
        decreases nets@.len() - k,
    {
        let net = &nets[k];
        let edges = match assign_net_ports(net, chip_status, board) {
            Ok(edges) => edges,
            Err(error) => {
                return Err(error);
            },
        };
        match connect_net_edges(
            edges,
            net.id,
            chip_status,
            &mut lanes,
            &mut pending_edge_nets,
            &mut pending_bounces,
        ) {
            Ok(()) => {},
            Err(error) => {
                return Err(error);
            },
        }
        k += 1;
    }
    // Produce the missing connections by bounces.
    let ghost routed = state_of(*chip_status, lanes, pending_edge_nets, pending_bounces);
    let bounces = bounces_as_slice(&pending_bounces);
    let mut k: usize = 0;
    while k < bounces.len()
        invariant
            k <= bounces@.len(),
            node_ports == board.spec_node_ports(),
            list == board.spec_lanes(),
            lanes.lanes() == list,
            bounces@ == routed.bounces,
            route_nets(node_ports, list, nets@, 0, initial_state(old(chip_status)@)) == Ok::<
                RouterState,
                Error,
            >(routed),
            resolve_bounces(
                node_ports,
                list,
                bounces@,
                k as int,
                state_with(*chip_status, lanes, pending_edge_nets, bounces@),
            ) == resolve_bounces(node_ports, list, bounces@, 0, routed),
        decreases bounces@.len() - k,
    {
        match resolve_pending_bounce(
            bounces[k],
            chip_status,
            &mut lanes,
            &mut pending_edge_nets,
            board,
            Ghost(bounces@),
        ) {
            Ok(()) => {},
            Err(error) => {
                return Err(error);
            },
        }
        k += 1;
    }
    // Connect the remaining edges.
    let ghost bounced = state_with(*chip_status, lanes, pending_edge_nets, bounces@);
    let edge_nets = edge_nets_as_slice(&pending_edge_nets);
    let mut k: usize = 0;
    while k < edge_nets.len()
        invariant
            k <= edge_nets@.len(),
            node_ports == board.spec_node_ports(),
            list == board.spec_lanes(),
            lanes.lanes() == list,
            edge_nets@ == bounced.edge_nets,
            route_nets(node_ports, list, nets@, 0, initial_state(old(chip_status)@)) == Ok::<
                RouterState,
                Error,
            >(routed),
            resolve_bounces(node_ports, list, routed.bounces, 0, routed) == Ok::<
                RouterState,
                Error,
            >(bounced),
            complete_edges(
                list,
                edge_nets@,
                k as int,
                RouterState {
                    status: chip_status@,
                    available: lanes.available(),
                    edge_nets: bounced.edge_nets,
                    bounces: bounced.bounces,
                },
            ) == complete_edges(list, edge_nets@, 0, bounced),
        decreases edge_nets@.len() - k,
    {
        let edge = edge_nets[k].edge;
        let net_id = edge_nets[k].net_id;
        match take_touching(&mut lanes, edge) {
            Some(lane) => match chip_status.set_lane(lane, net_id) {
                Ok(()) => {},
                Err(error) => {
                    return Err(error);
                },
            },
            None => {
                return Err(Error::LaneExhaustion { edge, net_id });
            },
        }
        k += 1;
    }
    proof {
        lemma_route(node_ports, list, nets@, old(chip_status)@);
        if old(chip_status)@ == Map::<Port, NetId>::empty() && net_ids_distinct(nets@)
            && sound_wiring(node_ports, list) {
            assert forall|k: int|
                0 <= k < nets@.len() && (#[trigger] nets@[k]).nodes.ids() != Set::<
                    int,
                >::empty() implies is_connected(chip_status@, node_ports, list, nets@[k].id) by {
                lemma_routed_net_is_connected(node_ports, list, nets@, k);
            }
        }
    }
    Ok(())
}

} // verus!
