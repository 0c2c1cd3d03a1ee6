//! The description of a board, with the lookup from its ports to what they
//! are wired to.

pub mod v4;
pub mod v5;

use vstd::prelude::*;

use crate::board_spec::{lemma_lane_port_use, port_use, BoardSpec, NodePort};
use crate::lane::Lane;
use crate::map::port_map::{PortMap, PortUse};
use crate::node::Node;
use crate::port::Port;
use crate::search::{first_index, lemma_first_index_is, lemma_first_index_none};

verus! {

/// The position of the first node-port of the node with the given
/// identifier.
pub open spec fn first_node_port<N: Node>(node_ports: Seq<NodePort<N>>, id: u8) -> Option<int> {
    first_index(0, node_ports.len() as int, is_port_of(node_ports, id))
}

/// Says of a position whether the node-port there is one of the node with
/// the given identifier.
pub open spec fn is_port_of<N: Node>(node_ports: Seq<NodePort<N>>, id: u8) -> spec_fn(int) -> bool {
    |k: int| node_ports[k].0.spec_id() == id
}

/// The first port that the node with the given identifier is wired to.
pub open spec fn node_port_of<N: Node>(node_ports: Seq<NodePort<N>>, id: u8) -> Option<Port> {
    match first_node_port(node_ports, id) {
        Some(k) => Some(node_ports[k].1),
        None => None,
    }
}

/// The description of a board: its wiring, and the map from its ports to
/// what they are wired to, made once from the wiring.
pub struct Board<
    N: Node,
    const NODE_PORT_COUNT: usize,
    const LANE_COUNT: usize,
    const BOUNCE_PORT_COUNT: usize,
> {
    pub(crate) spec: BoardSpec<N, NODE_PORT_COUNT, LANE_COUNT, BOUNCE_PORT_COUNT>,
    pub(crate) port_map: PortMap<N>,
}

impl<
    N: Node,
    const NODE_PORT_COUNT: usize,
    const LANE_COUNT: usize,
    const BOUNCE_PORT_COUNT: usize,
> Board<N, NODE_PORT_COUNT, LANE_COUNT, BOUNCE_PORT_COUNT> {
    /// There are at most 127 lanes, and the map says of every port what the
    /// wiring says.
    #[verifier::type_invariant]
    pub open(crate) spec fn wf(self) -> bool {
        &&& LANE_COUNT <= 127
        &&& forall|port: Port|
            port.wf() ==> self.port_map.spec_get(port) == port_use(
                self.spec.node_ports@,
                self.spec.lanes@,
                port,
            )
    }

    /// The node-ports of the board.
    pub open(crate) spec fn spec_node_ports(&self) -> Seq<NodePort<N>> {
        self.spec.node_ports@
    }

    /// The lanes of the board.
    pub open(crate) spec fn spec_lanes(&self) -> Seq<Lane> {
        self.spec.lanes@
    }

    /// The bounce ports of the board.
    pub open(crate) spec fn spec_bounce_ports(&self) -> Seq<Port> {
        self.spec.bounce_ports@
    }

    /// What the given port is wired to.
    pub open spec fn spec_port_use(&self, port: Port) -> PortUse {
        port_use(self.spec_node_ports(), self.spec_lanes(), port)
    }

    /// The first port that the node with the given identifier is wired to.
    pub open spec fn spec_node_to_port(&self, id: u8) -> Option<Port> {
        node_port_of(self.spec_node_ports(), id)
    }

    /// The lane of which the given port is an end.
    pub open spec fn spec_port_to_lane(&self, port: Port) -> Option<Lane> {
        match self.spec_port_use(port) {
            PortUse::Lane(index) => Some(self.spec_lanes()[index as int]),
            _ => None,
        }
    }

    /// Makes the board of the given wiring, with the lookup from its ports.
    pub fn new(spec: BoardSpec<N, NODE_PORT_COUNT, LANE_COUNT, BOUNCE_PORT_COUNT>) -> (r: Self)
        requires
            LANE_COUNT <= 127,
        ensures
            r.spec_node_ports() == spec.node_ports@,
            r.spec_lanes() == spec.lanes@,
            r.spec_bounce_ports() == spec.bounce_ports@,
    {
        let port_map = spec.create_port_map();
        Self { spec, port_map }
    }

    /// The lookup from the ports of the board to what they are wired to.
    pub fn port_map(&self) -> (r: &PortMap<N>)
        ensures
            forall|port: Port| port.wf() ==> r.spec_get(port) == self.spec_port_use(port),
    {
        proof {
            use_type_invariant(self);
        }
        &self.port_map
    }

    /// The lanes of the board, at most 127.
    pub fn lanes(&self) -> (r: &[Lane; LANE_COUNT])
        ensures
            r@ == self.spec_lanes(),
            r@.len() <= 127,
    {
        proof {
            use_type_invariant(self);
        }
        &self.spec.lanes
    }

    /// The ports that are kept for bounces.
    pub fn bounce_ports(&self) -> (r: &[Port; BOUNCE_PORT_COUNT])
        ensures
            r@ == self.spec_bounce_ports(),
    {
        &self.spec.bounce_ports
    }

    /// The first port that the given node is wired to.
    pub fn node_to_port(&self, node: N) -> (r: Option<Port>)
        ensures
            r == self.spec_node_to_port(node.spec_id()),
    {
        let id = node.id();
        let ghost node_ports = self.spec_node_ports();
        let ghost found = is_port_of(node_ports, id);
        let mut k: usize = 0;
        while k < NODE_PORT_COUNT
            invariant
                k <= NODE_PORT_COUNT,
                id == node.spec_id(),
                node_ports == self.spec_node_ports(),
                found == is_port_of(node_ports, id),
                forall|j: int| 0 <= j < k ==> !#[trigger] found(j),
            decreases NODE_PORT_COUNT - k,
        {
            if self.spec.node_ports[k].0.id() == id {
                proof {
                    lemma_first_index_is(0, node_ports.len() as int, found, k as int);
                }
                return Some(self.spec.node_ports[k].1);
            }
            k += 1;
        }
        proof {
            lemma_first_index_none(0, node_ports.len() as int, found);
        }
        None
    }

    /// The lane of which the given port is an end.
    pub fn port_to_lane(&self, port: Port) -> (r: Option<Lane>)
        ensures
            r == self.spec_port_to_lane(port),
            r matches Some(lane) ==> lane.has_end(port),
    {
        proof {
            use_type_invariant(self);
            use_type_invariant(port);
            lemma_lane_port_use(
                self.spec_node_ports(),
                self.spec_lanes(),
                LANE_COUNT as int,
                port,
            );
        }
        match self.port_map.get_lane_index(port) {
            Some(index) => Some(self.spec.lanes[index]),
            None => None,
        }
    }

    /// The index, among the lanes of the board, of the lane of which the
    /// given port is an end.
    pub fn port_to_lane_index(&self, port: Port) -> (r: Option<usize>)
        ensures
            match self.spec_port_use(port) {
                PortUse::Lane(index) => r == Some(index) && index < self.spec_lanes().len()
                    && self.spec_lanes()[index as int].has_end(port),
                _ => r is None,
            },
    {
        proof {
            use_type_invariant(self);
            use_type_invariant(port);
            lemma_lane_port_use(
                self.spec_node_ports(),
                self.spec_lanes(),
                LANE_COUNT as int,
                port,
            );
        }
        self.port_map.get_lane_index(port)
    }

    /// The node that the given port is wired to.
    pub fn port_to_node(&self, port: Port) -> (r: Option<N>)
        ensures
            match self.spec_port_use(port) {
                PortUse::Node(id) => r is Some && r->0.spec_id() == id,
                _ => r is None,
            },
    {
        proof {
            use_type_invariant(self);
            use_type_invariant(port);
        }
        self.port_map.get_node(port)
    }
}

} // verus!
