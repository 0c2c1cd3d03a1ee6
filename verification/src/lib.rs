//! Routing for a breadboard that is wired by twelve crosspoint chips.
//!
//! Each chip is a matrix of 16 by 8 switches between its X ports and its Y
//! ports. Some ports are wired to the nodes of the board: the rows of the
//! breadboard, the rails, the pins of the headers. Others are wired to each
//! other by lanes between the chips. A netlist names, for every net, the
//! nodes that are to be connected. [`nets_to_connections`] turns a netlist
//! and a [`board::Board`] into a [`ChipStatus`], which assigns ports to
//! nets, and from which the switches to close are read.
//!
//! The contracts are stated over plain mathematical values. [`route`] says
//! what the router computes. [`invariants`] and [`joining`] prove what
//! holds of every netlist that it accepts: each node has its port, no port
//! serves two nets, the netlist can be read back from the assignment, and
//! every net hangs together, as [`connectivity`] checks it.

pub mod bits;
pub mod board;
pub mod board_spec;
pub mod chip_id;
pub mod chip_status;
pub mod connectivity;
pub mod crosspoint;
pub mod dimension;
pub mod edge;
pub mod error;
pub mod invariants;
pub mod joining;
pub mod lane;
pub mod line_buffer;
pub mod map;
pub mod net;
pub mod net_id;
pub mod net_manager;
pub mod nets;
pub mod nets_to_connections;
pub mod node;
pub mod packet;
pub mod pending;
pub mod port;
pub mod reach;
pub mod route;
pub mod search;
pub mod set;
pub mod shell;
pub mod text;

pub use chip_id::ChipId;
pub use chip_status::ChipStatus;
pub use crosspoint::Crosspoint;
pub use crosspoint::CrosspointConfig;
pub use dimension::Dimension;
pub use edge::Edge;
pub use error::Error;
pub use lane::Lane;
pub use net::Net;
pub use net_id::NetId;
pub use node::Node;
pub use port::Port;
