//! Lookup tables over the ports of the board.

pub mod port_map;

pub use port_map::PortMap;
pub use port_map::PortMapEntry;
pub use port_map::PortUse;
