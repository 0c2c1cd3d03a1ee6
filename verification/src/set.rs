//! Fixed-capacity sets of ports, edges, nodes and lanes, kept as bitmaps.

pub mod edge_set;
pub mod lane_set;
pub mod node_set;
pub mod port_set;

pub use edge_set::EdgeSet;
pub use lane_set::LaneSet;
pub use node_set::NodeSet;
pub use port_set::PortSet;
