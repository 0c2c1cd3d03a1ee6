//! What the walk of the connectivity check comes by.
//!
//! The walk goes from a port to the ports of the net on the other edge of
//! the same chip, and along the lanes of the net. The set of ports that it
//! has visited in the end is closed under these steps.

use vstd::prelude::*;

use crate::board_spec::{lemma_lane_port_use, port_use, NodePort};
use crate::connectivity::{spec_visit, walk, walk_edge, Visit};
use crate::edge::Edge;
use crate::lane::Lane;
use crate::map::port_map::PortUse;
use crate::net_id::NetId;
use crate::node::Node;
use crate::port::{all_ports, lemma_port_count, Port};

verus! {

/// The port is assigned to the net.
pub open spec fn belongs(status: Map<Port, NetId>, net_id: NetId, port: Port) -> bool {
    status.dom().contains(port) && status[port] == net_id
}

/// The lanes have ports of the board for ends, and no port is an end of two
/// lanes.
pub open spec fn lanes_apart(lanes: Seq<Lane>) -> bool {
    &&& forall|i: int| 0 <= i < lanes.len() ==> (#[trigger] lanes[i]).wf()
    &&& forall|i: int, j: int, port: Port|
        0 <= i < lanes.len() && 0 <= j < lanes.len() && #[trigger] lanes[i].has_end(port)
            && #[trigger] lanes[j].has_end(port) ==> i == j
}

/// Where the port belongs to the net and is the end of a lane, the other
/// end of the lane is among the visited ports.
pub open spec fn lane_followed<N: Node>(
    status: Map<Port, NetId>,
    node_ports: Seq<NodePort<N>>,
    lanes: Seq<Lane>,
    net_id: NetId,
    visited: Set<Port>,
    port: Port,
) -> bool {
    belongs(status, net_id, port) ==> (port_use(node_ports, lanes, port) matches PortUse::Lane(
        index,
    ) ==> visited.contains(lanes[index as int].spec_opposite(port)))
}

/// Every port of the net on the given edge is among the visited ports.
pub open spec fn edge_covered(
    status: Map<Port, NetId>,
    net_id: NetId,
    visited: Set<Port>,
    edge: Edge,
) -> bool {
    forall|other: Port|
        other.wf() && #[trigger] belongs(status, net_id, other) && other.spec_edge() == edge
            ==> visited.contains(other)
}

/// The walk has done with the port: the ports of the net on the other edge
/// of the chip are visited, and so is the far end of the port's lane.
pub open spec fn settled<N: Node>(
    status: Map<Port, NetId>,
    node_ports: Seq<NodePort<N>>,
    lanes: Seq<Lane>,
    net_id: NetId,
    visited: Set<Port>,
    port: Port,
) -> bool {
    &&& edge_covered(status, net_id, visited, port.spec_edge().spec_orthogonal())
    &&& lane_followed(status, node_ports, lanes, net_id, visited, port)
}

/// The set of ports is closed under the steps of the walk.
pub open spec fn closed_under_steps<N: Node>(
    status: Map<Port, NetId>,
    node_ports: Seq<NodePort<N>>,
    lanes: Seq<Lane>,
    net_id: NetId,
    ports: Set<Port>,
) -> bool {
    forall|port: Port| #[trigger]
        ports.contains(port) ==> settled(status, node_ports, lanes, net_id, ports, port)
}

/// What the walk over the ports of an edge leaves behind: each port that it
/// has added is either settled, or a port of the net on that edge whose lane
/// was followed; and a port was marked if one of the latter kind was added.
pub open spec fn edge_walked<N: Node>(
    status: Map<Port, NetId>,
    node_ports: Seq<NodePort<N>>,
    lanes: Seq<Lane>,
    net_id: NetId,
    edge: Edge,
    before: Set<Port>,
    after: Set<Port>,
    marked: bool,
) -> bool {
    forall|port: Port|
        #[trigger] after.contains(port) && !before.contains(port) ==> settled(
            status,
            node_ports,
            lanes,
            net_id,
            after,
            port,
        ) || (port.spec_edge() == edge && marked && lane_followed(
            status,
            node_ports,
            lanes,
            net_id,
            after,
            port,
        ))
}

/// The far end of a lane has the near end for its own far end.
proof fn lemma_far_end<N: Node>(
    node_ports: Seq<NodePort<N>>,
    lanes: Seq<Lane>,
    port: Port,
    index: usize,
)
    requires
        lanes_apart(lanes),
        lanes.len() <= 127,
        port_use(node_ports, lanes, port) == PortUse::Lane(index),
    ensures
        index < lanes.len(),
        lanes[index as int].has_end(port),
        lanes[index as int].spec_opposite(port).wf(),
        port_use(node_ports, lanes, lanes[index as int].spec_opposite(port)) matches PortUse::Lane(
            other,
        ) ==> lanes[other as int].spec_opposite(lanes[index as int].spec_opposite(port)) == port
            || lanes[other as int].spec_opposite(lanes[index as int].spec_opposite(port))
            == lanes[index as int].spec_opposite(port),
{
    lemma_lane_port_use(node_ports, lanes, lanes.len() as int, port);
    let far = lanes[index as int].spec_opposite(port);
    lemma_lane_port_use(node_ports, lanes, lanes.len() as int, far);
    if let PortUse::Lane(other) = port_use(node_ports, lanes, far) {
        assert(lanes[other as int].has_end(far));
        assert(lanes[index as int].has_end(far));
    }
}

/// The walk over the ports of an edge keeps what was visited, visits every
/// port of the net on the edge, and settles what it adds.
pub proof fn lemma_walk_edge<N: Node>(
    status: Map<Port, NetId>,
    node_ports: Seq<NodePort<N>>,
    lanes: Seq<Lane>,
    net_id: NetId,
    depth: nat,
    edge: Edge,
    k: int,
    visited: Set<Port>,
    marked: bool,
)
    requires
        lanes_apart(lanes),
        lanes.len() <= 127,
        edge.wf(),
        0 <= k <= edge.spec_ports().len(),
        visited.subset_of(all_ports()),
        depth + visited.len() >= 288,
    ensures
        ({
            let ports = edge.spec_ports();
            let after = walk_edge(status, node_ports, lanes, net_id, depth, ports, k, visited, marked);
            &&& visited.subset_of(after.0)
            &&& after.0.subset_of(all_ports())
            &&& marked ==> after.1
            &&& forall|j: int|
                k <= j < ports.len() && belongs(status, net_id, #[trigger] ports[j])
                    ==> after.0.contains(ports[j])
            &&& edge_walked(status, node_ports, lanes, net_id, edge, visited, after.0, after.1)
        }),
    decreases depth, 0nat, edge.spec_ports().len() - k,
{
    let ports = edge.spec_ports();
    if k < ports.len() {
        let port = ports[k];
        assert(port.wf() && port.spec_edge() == edge);
        lemma_port_count(visited);
        if visited.contains(port) {
            lemma_walk_edge(status, node_ports, lanes, net_id, depth, edge, k + 1, visited, marked);
        } else {
            let grown = visited.insert(port);
            lemma_port_count(grown);
            match spec_visit(status, node_ports, lanes, net_id, port) {
                Visit::Skip => {
                    lemma_walk_edge(
                        status,
                        node_ports,
                        lanes,
                        net_id,
                        depth,
                        edge,
                        k + 1,
                        visited,
                        marked,
                    );
                },
                Visit::Mark => {
                    lemma_walk_edge(
                        status,
                        node_ports,
                        lanes,
                        net_id,
                        depth,
                        edge,
                        k + 1,
                        grown,
                        true,
                    );
                    let after = walk_edge(
                        status,
                        node_ports,
                        lanes,
                        net_id,
                        depth,
                        ports,
                        k + 1,
                        grown,
                        true,
                    );
                    assert forall|other: Port|
                        #[trigger] after.0.contains(other) && !visited.contains(
                            other,
                        ) implies settled(status, node_ports, lanes, net_id, after.0, other) || (
                    other.spec_edge() == edge && after.1 && lane_followed(
                        status,
                        node_ports,
                        lanes,
                        net_id,
                        after.0,
                        other,
                    )) by {
                        if other != port {
                            assert(!grown.contains(other));
                        }
                    }
                },
                Visit::MarkAndFollow(follow) => {
                    let index = port_use(node_ports, lanes, port)->Lane_0;
                    lemma_far_end(node_ports, lanes, port, index);
                    assert(depth > 0);
                    lemma_walk(
                        status,
                        node_ports,
                        lanes,
                        net_id,
                        (depth - 1) as nat,
                        follow,
                        grown,
                    );
                    let walked = walk(
                        status,
                        node_ports,
                        lanes,
                        net_id,
                        (depth - 1) as nat,
                        follow,
                        grown,
                    );
                    lemma_port_count(walked);
                    vstd::set_lib::lemma_len_subset(grown, walked);
                    lemma_walk_edge(
                        status,
                        node_ports,
                        lanes,
                        net_id,
                        depth,
                        edge,
                        k + 1,
                        walked,
                        true,
                    );
                    let after = walk_edge(
                        status,
                        node_ports,
                        lanes,
                        net_id,
                        depth,
                        ports,
                        k + 1,
                        walked,
                        true,
                    );
                    assert forall|other: Port|
                        #[trigger] after.0.contains(other) && !visited.contains(
                            other,
                        ) implies settled(status, node_ports, lanes, net_id, after.0, other) || (
                    other.spec_edge() == edge && after.1 && lane_followed(
                        status,
                        node_ports,
                        lanes,
                        net_id,
                        after.0,
                        other,
                    )) by {
                        if other == port {
                            assert(walked.contains(follow));
                        } else if walked.contains(other) {
                            assert(!grown.contains(other));
                            lemma_settled_stays(
                                status,
                                node_ports,
                                lanes,
                                net_id,
                                walked,
                                after.0,
                                other,
                            );
                        }
                    }
                },
            }
        }
    }
}

/// What is settled stays settled when more ports are visited.
pub proof fn lemma_settled_stays<N: Node>(
    status: Map<Port, NetId>,
    node_ports: Seq<NodePort<N>>,
    lanes: Seq<Lane>,
    net_id: NetId,
    fewer: Set<Port>,
    more: Set<Port>,
    port: Port,
)
    requires
        fewer.subset_of(more),
        settled(status, node_ports, lanes, net_id, fewer, port),
    ensures
        settled(status, node_ports, lanes, net_id, more, port),
{
}

/// The walk from a port keeps what was visited, visits the port, and
/// settles what it adds.
pub proof fn lemma_walk<N: Node>(
    status: Map<Port, NetId>,
    node_ports: Seq<NodePort<N>>,
    lanes: Seq<Lane>,
    net_id: NetId,
    depth: nat,
    start: Port,
    visited: Set<Port>,
)
    requires
        lanes_apart(lanes),
        lanes.len() <= 127,
        start.wf(),
        visited.subset_of(all_ports()),
        depth + visited.len() >= 288,
        lane_followed(status, node_ports, lanes, net_id, visited.insert(start), start),
    ensures
        ({
            let after = walk(status, node_ports, lanes, net_id, depth, start, visited);
            &&& visited.subset_of(after)
            &&& after.contains(start)
            &&& after.subset_of(all_ports())
            &&& forall|port: Port|
                #[trigger] after.contains(port) && !visited.contains(port) ==> settled(
                    status,
                    node_ports,
                    lanes,
                    net_id,
                    after,
                    port,
                )
        }),
    decreases depth, 1nat, 0nat,
{
    let across = start.spec_edge().spec_orthogonal();
    let along = start.spec_edge();
    let begun = visited.insert(start);
    lemma_port_count(visited);
    lemma_port_count(begun);
    lemma_walk_edge(status, node_ports, lanes, net_id, depth, across, 0, begun, false);
    let first = walk_edge(
        status,
        node_ports,
        lanes,
        net_id,
        depth,
        across.spec_ports(),
        0,
        begun,
        false,
    );
    lemma_port_count(first.0);
    vstd::set_lib::lemma_len_subset(begun, first.0);
    assert(edge_covered(status, net_id, first.0, across)) by {
        assert forall|other: Port|
            other.wf() && #[trigger] belongs(status, net_id, other) && other.spec_edge()
                == across implies first.0.contains(other) by {
            assert(across.spec_ports()[other.spec_index() as int] == other);
        }
    }
    if first.1 {
        lemma_walk_edge(status, node_ports, lanes, net_id, depth, along, 0, first.0, true);
        let second = walk_edge(
            status,
            node_ports,
            lanes,
            net_id,
            depth,
            along.spec_ports(),
            0,
            first.0,
            true,
        );
        assert(edge_covered(status, net_id, second.0, along)) by {
            assert forall|other: Port|
                other.wf() && #[trigger] belongs(status, net_id, other) && other.spec_edge()
                    == along implies second.0.contains(other) by {
                assert(along.spec_ports()[other.spec_index() as int] == other);
            }
        }
        assert forall|port: Port|
            #[trigger] second.0.contains(port) && !visited.contains(port) implies settled(
            status,
            node_ports,
            lanes,
            net_id,
            second.0,
            port,
        ) by {
            if port == start {
            } else if first.0.contains(port) {
                assert(!begun.contains(port));
                if settled(status, node_ports, lanes, net_id, first.0, port) {
                    lemma_settled_stays(
                        status,
                        node_ports,
                        lanes,
                        net_id,
                        first.0,
                        second.0,
                        port,
                    );
                }
            }
        }
    } else {
        assert forall|port: Port|
            #[trigger] first.0.contains(port) && !visited.contains(port) implies settled(
            status,
            node_ports,
            lanes,
            net_id,
            first.0,
            port,
        ) by {
            if port != start {
                assert(!begun.contains(port));
            }
        }
    }
}

/// The ports that the walk from a port has visited in the end are closed
/// under the steps of the walk.
pub proof fn lemma_walk_is_closed<N: Node>(
    status: Map<Port, NetId>,
    node_ports: Seq<NodePort<N>>,
    lanes: Seq<Lane>,
    net_id: NetId,
    first: Port,
)
    requires
        lanes_apart(lanes),
        lanes.len() <= 127,
        first.wf(),
        port_use(node_ports, lanes, first) !is Lane,
    ensures
        walk(status, node_ports, lanes, net_id, 288, first, Set::empty()).contains(first),
        closed_under_steps(
            status,
            node_ports,
            lanes,
            net_id,
            walk(status, node_ports, lanes, net_id, 288, first, Set::empty()),
        ),
{
    lemma_walk(status, node_ports, lanes, net_id, 288, first, Set::empty());
}

/// Whatever set of ports is closed under the steps of the walk and holds
/// `from`, holds `to` as well: the switches and lanes of the net lead from
/// the one port to the other.
pub open spec fn joined<N: Node>(
    status: Map<Port, NetId>,
    node_ports: Seq<NodePort<N>>,
    lanes: Seq<Lane>,
    net_id: NetId,
    from: Port,
    to: Port,
) -> bool {
    forall|ports: Set<Port>|
        #[trigger] closed_under_steps(status, node_ports, lanes, net_id, ports) && ports.contains(
            from,
        ) ==> ports.contains(to)
}

/// The walk from a port comes by every port that the port is joined to.
pub proof fn lemma_walk_visits_joined<N: Node>(
    status: Map<Port, NetId>,
    node_ports: Seq<NodePort<N>>,
    lanes: Seq<Lane>,
    net_id: NetId,
    first: Port,
    port: Port,
)
    requires
        lanes_apart(lanes),
        lanes.len() <= 127,
        first.wf(),
        port_use(node_ports, lanes, first) !is Lane,
        joined(status, node_ports, lanes, net_id, first, port),
    ensures
        walk(status, node_ports, lanes, net_id, 288, first, Set::empty()).contains(port),
{
    lemma_walk_is_closed(status, node_ports, lanes, net_id, first);
}

/// From a port the walk steps to every port of the net on the other edge of
/// the chip.
pub proof fn lemma_joined_across<N: Node>(
    status: Map<Port, NetId>,
    node_ports: Seq<NodePort<N>>,
    lanes: Seq<Lane>,
    net_id: NetId,
    from: Port,
    to: Port,
)
    requires
        to.wf(),
        belongs(status, net_id, to),
        to.spec_edge() == from.spec_edge().spec_orthogonal(),
    ensures
        joined(status, node_ports, lanes, net_id, from, to),
{
    assert forall|ports: Set<Port>|
        #[trigger] closed_under_steps(status, node_ports, lanes, net_id, ports) && ports.contains(
            from,
        ) implies ports.contains(to) by {
        assert(settled(status, node_ports, lanes, net_id, ports, from));
    }
}

/// From a port of the net that is the end of a lane, the walk steps to the
/// far end of the lane.
pub proof fn lemma_joined_along<N: Node>(
    status: Map<Port, NetId>,
    node_ports: Seq<NodePort<N>>,
    lanes: Seq<Lane>,
    net_id: NetId,
    index: int,
    from: Port,
)
    requires
        lanes_apart(lanes),
        lanes.len() <= 127,
        0 <= index < lanes.len(),
        lanes[index].has_end(from),
        belongs(status, net_id, from),
    ensures
        joined(status, node_ports, lanes, net_id, from, lanes[index].spec_opposite(from)),
{
    lemma_lane_port_use(node_ports, lanes, lanes.len() as int, from);
    assert(port_use(node_ports, lanes, from) == PortUse::Lane(index as usize));
    assert forall|ports: Set<Port>|
        #[trigger] closed_under_steps(status, node_ports, lanes, net_id, ports) && ports.contains(
            from,
        ) implies ports.contains(lanes[index].spec_opposite(from)) by {
        assert(settled(status, node_ports, lanes, net_id, ports, from));
    }
}

/// Two steps make a way.
pub proof fn lemma_joined_twice<N: Node>(
    status: Map<Port, NetId>,
    node_ports: Seq<NodePort<N>>,
    lanes: Seq<Lane>,
    net_id: NetId,
    from: Port,
    by: Port,
    to: Port,
)
    requires
        joined(status, node_ports, lanes, net_id, from, by),
        joined(status, node_ports, lanes, net_id, by, to),
    ensures
        joined(status, node_ports, lanes, net_id, from, to),
{
}

/// What is joined stays joined when more ports are assigned.
pub proof fn lemma_joined_stays<N: Node>(
    earlier: Map<Port, NetId>,
    later: Map<Port, NetId>,
    node_ports: Seq<NodePort<N>>,
    lanes: Seq<Lane>,
    net_id: NetId,
    from: Port,
    to: Port,
)
    requires
        crate::invariants::keeps(earlier, later),
        joined(earlier, node_ports, lanes, net_id, from, to),
    ensures
        joined(later, node_ports, lanes, net_id, from, to),
{
    assert forall|ports: Set<Port>|
        #[trigger] closed_under_steps(later, node_ports, lanes, net_id, ports) && ports.contains(
            from,
        ) implies ports.contains(to) by {
        assert forall|port: Port| #[trigger] ports.contains(port) implies settled(
            earlier,
            node_ports,
            lanes,
            net_id,
            ports,
            port,
        ) by {
            assert(settled(later, node_ports, lanes, net_id, ports, port));
            assert forall|other: Port|
                other.wf() && #[trigger] belongs(earlier, net_id, other) && other.spec_edge()
                    == port.spec_edge().spec_orthogonal() implies ports.contains(other) by {
                assert(belongs(later, net_id, other));
            }
            if belongs(earlier, net_id, port) {
                assert(belongs(later, net_id, port));
            }
        }
        assert(closed_under_steps(earlier, node_ports, lanes, net_id, ports));
    }
}

} // verus!
