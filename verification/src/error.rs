//! The errors of the router.

use vstd::prelude::*;

use crate::edge::Edge;
use crate::net_id::NetId;
use crate::port::Port;

verus! {

/// Why a netlist could not be turned into connections.
#[derive(Copy, Clone, PartialEq, Eq, Structural, Debug)]
pub enum Error {
    /// A port was to be assigned to a net, but it was assigned already.
    PortAlreadyAssigned { port: Port, existing: NetId, requested: NetId },
    /// No free lane has an end on the edge that the net needs.
    LaneExhaustion { edge: Edge, net_id: NetId },
    /// No chain of free lanes leads from one edge to the other.
    NoBouncePath { edge_a: Edge, edge_b: Edge, net_id: NetId },
    /// A node of the net with this identifier is wired to no port.
    UnmappedNode { node: u8 },
    /// More connections are waiting to be completed than can be kept.
    PendingOverflow { net_id: NetId },
}

} // verus!
