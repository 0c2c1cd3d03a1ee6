//! Nets: sets of nodes under an identifier.

use vstd::prelude::*;

use crate::net_id::NetId;
use crate::node::Node;
use crate::set::node_set::NodeSet;

verus! {

/// A set of nodes that are to be connected with each other, under one
/// identifier.
#[derive(PartialEq, Eq, Debug)]
pub struct Net<N: Node> {
    pub id: NetId,
    pub nodes: NodeSet<N>,
}

impl<N: Node> Net<N> {
    /// A net without nodes.
    pub fn new(id: NetId) -> (r: Self)
        ensures
            r.id == id,
            r.nodes.ids() == Set::<int>::empty(),
            r.nodes@ == Set::<N>::empty(),
    {
        Self { id, nodes: NodeSet::default() }
    }

    /// The net of the given nodes.
    pub fn from_iter(id: NetId, nodes: &[N]) -> (r: Self)
        ensures
            r.id == id,
            r.nodes@ == nodes@.to_set(),
            r.nodes.ids() == nodes@.map_values(|node: N| node.spec_id() as int).to_set(),
    {
        Self { id, nodes: NodeSet::from_slice(nodes) }
    }
}

} // verus!
