//! A check that the ports of a net hang together.
//!
//! The check walks from one port of the net over the switches and lanes
//! that the net closes, and sees whether it comes by every port of the net
//! that a node is wired to.

use vstd::prelude::*;

use crate::board::Board;
use crate::board_spec::{port_use, NodePort};
use crate::chip_status::ChipStatus;
use crate::lane::Lane;
use crate::map::port_map::PortUse;
use crate::net_id::NetId;
use crate::node::Node;
use crate::port::Port;
use crate::search::{first_index, lemma_first_index_is, lemma_first_index_none};
use crate::set::port_set::PortSet;

verus! {

/// What the walk does with a port that it comes by.
#[derive(Copy, Clone, PartialEq, Eq, Structural, Debug)]
pub enum Visit {
    /// The port does not belong to the net.
    Skip,
    /// The port belongs to the net.
    Mark,
    /// The port belongs to the net, and a lane leads from it to the given
    /// port.
    MarkAndFollow(Port),
}

/// What the walk does with the given port: it marks the ports of the net,
/// and follows the lane of a port that has one.
pub open spec fn spec_visit<N: Node>(
    status: Map<Port, NetId>,
    node_ports: Seq<NodePort<N>>,
    lanes: Seq<Lane>,
    net_id: NetId,
    port: Port,
) -> Visit {
    if status.dom().contains(port) && status[port] == net_id {
        match port_use(node_ports, lanes, port) {
            PortUse::Lane(index) => Visit::MarkAndFollow(lanes[index as int].spec_opposite(port)),
            _ => Visit::Mark,
        }
    } else {
        Visit::Skip
    }
}

/// The ports visited once the walk has been at `start`. The walk marks
/// `start`, and then the ports of the net on the other edge of the chip;
/// where one of them has a lane, it goes on at the far end of the lane. If
/// it marked any port there, it does the same with the ports on the edge of
/// `start`. The walk goes no deeper than `depth` lanes.
pub open spec fn walk<N: Node>(
    status: Map<Port, NetId>,
    node_ports: Seq<NodePort<N>>,
    lanes: Seq<Lane>,
    net_id: NetId,
    depth: nat,
    start: Port,
    visited: Set<Port>,
) -> Set<Port>
    decreases depth, 1nat, 0nat,
{
    let across = walk_edge(
        status,
        node_ports,
        lanes,
        net_id,
        depth,
        start.spec_edge().spec_orthogonal().spec_ports(),
        0,
        visited.insert(start),
        false,
    );
    if across.1 {
        walk_edge(
            status,
            node_ports,
            lanes,
            net_id,
            depth,
            start.spec_edge().spec_ports(),
            0,
            across.0,
            true,
        ).0
    } else {
        across.0
    }
}

/// The ports visited once the walk has been at the given ports of one edge,
/// from the `k`th on, and whether it has marked any port of that edge.
pub open spec fn walk_edge<N: Node>(
    status: Map<Port, NetId>,
    node_ports: Seq<NodePort<N>>,
    lanes: Seq<Lane>,
    net_id: NetId,
    depth: nat,
    ports: Seq<Port>,
    k: int,
    visited: Set<Port>,
    marked: bool,
) -> (Set<Port>, bool)
    decreases depth, 0nat, ports.len() - k,
{
    if k >= ports.len() {
        (visited, marked)
    } else if visited.contains(ports[k]) {
        walk_edge(status, node_ports, lanes, net_id, depth, ports, k + 1, visited, marked)
    } else {
        match spec_visit(status, node_ports, lanes, net_id, ports[k]) {
            Visit::Skip => walk_edge(
                status,
                node_ports,
                lanes,
                net_id,
                depth,
                ports,
                k + 1,
                visited,
                marked,
            ),
            Visit::Mark => walk_edge(
                status,
                node_ports,
                lanes,
                net_id,
                depth,
                ports,
                k + 1,
                visited.insert(ports[k]),
                true,
            ),
            Visit::MarkAndFollow(follow) => {
                if depth == 0 {
                    (visited.insert(ports[k]), true)
                } else {
                    walk_edge(
                        status,
                        node_ports,
                        lanes,
                        net_id,
                        depth,
                        ports,
                        k + 1,
                        walk(
                            status,
                            node_ports,
                            lanes,
                            net_id,
                            (depth - 1) as nat,
                            follow,
                            visited.insert(ports[k]),
                        ),
                        true,
                    )
                }
            },
        }
    }
}

/// The ports that the net must hold together: those that are assigned to
/// the net and wired to a node.
pub open spec fn required_ports<N: Node>(
    status: Map<Port, NetId>,
    node_ports: Seq<NodePort<N>>,
    lanes: Seq<Lane>,
    net_id: NetId,
) -> Set<Port> {
    Set::new(
        |port: Port|
            port.wf() && status.dom().contains(port) && status[port] == net_id && port_use(
                node_ports,
                lanes,
                port,
            ) is Node,
    )
}

/// Says of an address whether the port there is one that the net must hold
/// together.
pub open spec fn is_required_at<N: Node>(
    status: Map<Port, NetId>,
    node_ports: Seq<NodePort<N>>,
    lanes: Seq<Lane>,
    net_id: NetId,
) -> spec_fn(int) -> bool {
    |address: int|
        required_ports(status, node_ports, lanes, net_id).contains(Port::from_address(address))
}

/// The net is fully connected: it has a port that is wired to a node, and
/// the walk from the first such port comes by all of them.
pub open spec fn is_connected<N: Node>(
    status: Map<Port, NetId>,
    node_ports: Seq<NodePort<N>>,
    lanes: Seq<Lane>,
    net_id: NetId,
) -> bool {
    match first_index(0, 288, is_required_at(status, node_ports, lanes, net_id)) {
        Some(address) => required_ports(status, node_ports, lanes, net_id).subset_of(
            walk(
                status,
                node_ports,
                lanes,
                net_id,
                288,
                Port::from_address(address),
                Set::empty(),
            ),
        ),
        None => false,
    }
}

impl ChipStatus {
    /// Checks that all the nodes that are marked to belong to the given net
    /// are interconnected.
    ///
    /// First the ports are collected that must be part of the net: those
    /// that are assigned to it and wired to a node. Then a walk starts at
    /// the first of them, and follows every switch and lane of the net that
    /// it encounters, keeping track of the ports that it has visited. The
    /// net is connected if the walk has visited all the ports collected.
    pub fn check_connectivity<N: Node, const NP: usize, const L: usize, const B: usize>(
        &self,
        net_id: NetId,
        board: &Board<N, NP, L, B>,
    ) -> (r: bool)
        ensures
            r == is_connected(self@, board.spec_node_ports(), board.spec_lanes(), net_id),
    {
        let ghost status = self@;
        let ghost node_ports = board.spec_node_ports();
        let ghost lanes = board.spec_lanes();
        let ghost wanted = required_ports(status, node_ports, lanes, net_id);
        let ghost found = is_required_at(status, node_ports, lanes, net_id);
        // Every port that this net must contain: those that are wired to nodes.
        let mut required = PortSet::empty();
        let mut first: Option<Port> = None;
        let ports = Port::all();
        let mut address: usize = 0;
        while address < 288
            invariant
                address <= 288,
                ports@.len() == 288,
                forall|a: int| 0 <= a < 288 ==> ports@[a] == Port::from_address(a),
                status == self@,
                node_ports == board.spec_node_ports(),
                lanes == board.spec_lanes(),
                wanted == required_ports(status, node_ports, lanes, net_id),
                found == is_required_at(status, node_ports, lanes, net_id),
                required@ == Set::new(|port: Port| wanted.contains(port) && port.address() < address),
                match first {
                    Some(port) => exists|a: int|
                        0 <= a < address && port == Port::from_address(a) && first_index(
                            0,
                            288,
                            found,
                        ) == Some(a),
                    None => forall|a: int| 0 <= a < address ==> !#[trigger] found(a),
                },
            decreases 288 - address,
        {
            let port = ports[address];
            proof {
                Port::lemma_from_address(address as int);
            }
            if self.get(port) == Some(net_id) && board.port_to_node(port).is_some() {
                required.insert(port);
                if first.is_none() {
                    proof {
                        lemma_first_index_is(0, 288, found, address as int);
                    }
                    first = Some(port);
                }
            }
            proof {
                assert forall|p: Port|
                    required@.contains(p) == (wanted.contains(p) && p.address() < address
                        + 1) by {
                    if p.wf() {
                        p.lemma_address();
                    }
                }
                assert(required@ =~= Set::new(
                    |port: Port| wanted.contains(port) && port.address() < address + 1,
                ));
            }
            address += 1;
        }
        proof {
            assert forall|p: Port| required@.contains(p) == wanted.contains(p) by {
                if p.wf() {
                    p.lemma_address();
                }
            }
            assert(required@ =~= wanted);
        }
        let first = match first {
            Some(first) => first,
            None => {
                proof {
                    lemma_first_index_none(0, 288, found);
                }
                return false;
            },
        };
        // Keep track of the ports that were visited.
        let mut visited = PortSet::empty();
        self.visit_port(first, &mut visited, net_id, board, Ghost(288));
        visited.is_superset(&required)
    }

    /// What the walk does with the given port.
    fn visit<N: Node, const NP: usize, const L: usize, const B: usize>(
        &self,
        port: Port,
        net_id: NetId,
        board: &Board<N, NP, L, B>,
    ) -> (r: Visit)
        ensures
            r == spec_visit(self@, board.spec_node_ports(), board.spec_lanes(), net_id, port),
    {
        if self.get(port) == Some(net_id) {
            match board.port_to_lane(port) {
                Some(lane) => Visit::MarkAndFollow(lane.opposite(port)),
                None => Visit::Mark,
            }
        } else {
            Visit::Skip
        }
    }

    /// Walks, depth first, over the ports that are connected to the same
    /// net.
    fn visit_port<N: Node, const NP: usize, const L: usize, const B: usize>(
        &self,
        start: Port,
        visited: &mut PortSet,
        net_id: NetId,
        board: &Board<N, NP, L, B>,
        Ghost(depth): Ghost<nat>,
    )
        requires
            depth + old(visited)@.len() >= 288,
        ensures
            final(visited)@ == walk(
                self@,
                board.spec_node_ports(),
                board.spec_lanes(),
                net_id,
                depth,
                start,
                old(visited)@,
            ),
            old(visited)@.subset_of(final(visited)@),
        decreases depth, 1nat,
    {
        visited.insert(start);
        proof {
            old(visited).lemma_bounded();
            visited.lemma_bounded();
            vstd::set_lib::lemma_len_subset(old(visited)@, visited@);
        }
        let ghost marked_start = visited@;
        // First visit all ports on the other edge. If any of them is
        // marked, the ports on the edge of `start` are visited too.
        let marked_orthogonal = self.visit_edge(
            start.edge().orthogonal().ports(),
            visited,
            false,
            net_id,
            board,
            Ghost(depth),
        );
        if marked_orthogonal {
            proof {
                visited.lemma_bounded();
                vstd::set_lib::lemma_len_subset(marked_start, visited@);
            }
            self.visit_edge(start.edge().ports(), visited, true, net_id, board, Ghost(depth));
        }
    }

    /// Visits the given ports of one edge, and returns whether any port of
    /// the edge was marked.
    fn visit_edge<N: Node, const NP: usize, const L: usize, const B: usize>(
        &self,
        ports: Vec<Port>,
        visited: &mut PortSet,
        marked_before: bool,
        net_id: NetId,
        board: &Board<N, NP, L, B>,
        Ghost(depth): Ghost<nat>,
    ) -> (r: bool)
        requires
            depth + old(visited)@.len() >= 288,
        ensures
            (final(visited)@, r) == walk_edge(
                self@,
                board.spec_node_ports(),
                board.spec_lanes(),
                net_id,
                depth,
                ports@,
                0,
                old(visited)@,
                marked_before,
            ),
            old(visited)@.subset_of(final(visited)@),
        decreases depth, 0nat,
    {
        let ghost status = self@;
        let ghost node_ports = board.spec_node_ports();
        let ghost lanes = board.spec_lanes();
        let mut marked = marked_before;
        let mut k: usize = 0;
        while k < ports.len()
            invariant
                k <= ports@.len(),
                status == self@,
                node_ports == board.spec_node_ports(),
                lanes == board.spec_lanes(),
                depth + old(visited)@.len() >= 288,
                old(visited)@.subset_of(visited@),
                walk_edge(status, node_ports, lanes, net_id, depth, ports@, k as int, visited@, marked)
                    == walk_edge(
                    status,
                    node_ports,
                    lanes,
                    net_id,
                    depth,
                    ports@,
                    0,
                    old(visited)@,
                    marked_before,
                ),
            decreases ports@.len() - k,
        {
            let port = ports[k];
            if !visited.contains(port) {
                match self.visit(port, net_id, board) {
                    Visit::Skip => {},
                    Visit::Mark => {
                        marked = true;
                        visited.insert(port);
                    },
                    Visit::MarkAndFollow(follow) => {
                        marked = true;
                        let ghost before = visited@;
                        proof {
                            visited.lemma_bounded();
                        }
                        visited.insert(port);
                        proof {
                            old(visited).lemma_bounded();
                            visited.lemma_bounded();
                            vstd::set_lib::lemma_len_subset(old(visited)@, before);
                            assert(visited@.len() == before.len() + 1);
                        }
                        self.visit_port(follow, visited, net_id, board, Ghost((depth - 1) as nat));
                    },
                }
            }
            k += 1;
        }
        marked
    }
}

} // verus!
