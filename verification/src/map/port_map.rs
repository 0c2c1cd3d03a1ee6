//! The map from each port to the node or the lane that it is wired to, one
//! byte for each port.

use vstd::prelude::*;

use crate::node::Node;
use crate::port::Port;
use core::marker::PhantomData;

verus! {

/// What a port of the board is wired to.
#[derive(Copy, Clone, PartialEq, Eq, Structural, Debug)]
pub enum PortUse {
    /// The port is wired to nothing that the map knows of.
    Unused,
    /// The port is wired to the node with this identifier.
    Node(u8),
    /// The port is one end of the lane with this index.
    Lane(usize),
}

/// The byte that stands for a port wired to nothing: the highest lane index
/// that fits, which no lane may have.
pub const ENTRY_VALUE_NONE: u8 = 0xFE;

/// What the byte of an entry stands for: a node where the lowest bit is
/// set, nothing where the byte is `ENTRY_VALUE_NONE`, else a lane; the seven
/// high bits hold the node's identifier or the lane's index.
pub open spec fn entry_use(byte: u8) -> PortUse {
    if byte & 1 == 1 {
        PortUse::Node(byte >> 1)
    } else if byte == ENTRY_VALUE_NONE {
        PortUse::Unused
    } else {
        PortUse::Lane((byte >> 1) as usize)
    }
}

proof fn lemma_entry_node(id: u8)
    requires
        id <= 127,
    ensures
        entry_use((id << 1) | 1) == PortUse::Node(id),
{
    assert(((id << 1) | 1) & 1 == 1 && ((id << 1) | 1) >> 1 == id) by (bit_vector)
        requires
            id <= 127,
    ;
}

proof fn lemma_entry_lane(index: u8)
    requires
        index < 127,
    ensures
        entry_use(index << 1) == PortUse::Lane(index as usize),
{
    assert((index << 1) & 1 == 0 && (index << 1) >> 1 == index && (index << 1) != 0xFE)
        by (bit_vector)
        requires
            index < 127,
    ;
}

proof fn lemma_entry_none()
    ensures
        entry_use(ENTRY_VALUE_NONE) == PortUse::Unused,
{
    assert(0xFEu8 & 1 == 0) by (bit_vector);
}

proof fn lemma_entry_bounds(byte: u8)
    ensures
        byte >> 1 <= 127,
        entry_use(byte) is Lane ==> byte >> 1 < 127,
{
    assert(byte >> 1 <= 127) by (bit_vector);
    assert(byte & 1 != 1 && byte != 0xFE ==> byte >> 1 < 127) by (bit_vector);
}

/// One entry of a `PortMap`: a node, the index of a lane, or nothing, packed
/// into a byte.
pub struct PortMapEntry<N: Node>(pub(crate) u8, pub(crate) PhantomData<N>);

impl<N: Node> Copy for PortMapEntry<N> {

}

impl<N: Node> Clone for PortMapEntry<N> {
    fn clone(&self) -> (r: Self)
        ensures
            r == *self,
    {
        *self
    }
}

impl<N: Node> PortMapEntry<N> {
    /// An entry that points to a node holds the identifier of a node.
    #[verifier::type_invariant]
    pub open(crate) spec fn wf(self) -> bool {
        entry_use(self.0) matches PortUse::Node(id) ==> N::valid_id(id)
    }

    /// What the entry points to.
    pub open(crate) spec fn spec_use(&self) -> PortUse {
        entry_use(self.0)
    }

    /// Constructs an entry pointing to nothing.
    pub fn new_none() -> (r: Self)
        ensures
            r.spec_use() == PortUse::Unused,
    {
        proof {
            lemma_entry_none();
        }
        Self(ENTRY_VALUE_NONE, PhantomData)
    }

    /// Constructs an entry pointing to a node.
    pub fn new_node(node: N) -> (r: Self)
        ensures
            r.spec_use() == PortUse::Node(node.spec_id()),
    {
        let id = node.id();
        proof {
            lemma_entry_node(id);
        }
        Self((id << 1) | 1, PhantomData)
    }

    /// Constructs an entry pointing to a lane, by the lane's index in the
    /// list of lanes of the board.
    pub fn new_lane_index(index: usize) -> (r: Self)
        requires
            index < 0x7F,
        ensures
            r.spec_use() == PortUse::Lane(index),
    {
        proof {
            lemma_entry_lane(index as u8);
        }
        Self((index as u8) << 1, PhantomData)
    }

    /// Retrieves the node that this entry points to.
    pub fn node(&self) -> (r: Option<N>)
        ensures
            match self.spec_use() {
                PortUse::Node(id) => r is Some && r->0.spec_id() == id,
                _ => r is None,
            },
    {
        if self.0 & 1 == 1 {
            proof {
                use_type_invariant(self);
            }
            Some(N::from_id(self.0 >> 1))
        } else {
            None
        }
    }

    /// Retrieves the index of the lane that this entry points to.
    pub fn lane_index(&self) -> (r: Option<usize>)
        ensures
            match self.spec_use() {
                PortUse::Lane(index) => r == Some(index) && index < 0x7F,
                _ => r is None,
            },
    {
        proof {
            lemma_entry_bounds(self.0);
        }
        if self.0 & 1 == 1 || self.0 == ENTRY_VALUE_NONE {
            None
        } else {
            Some((self.0 >> 1) as usize)
        }
    }
}

/// Maps every port to either a node or a lane (by the lane's index).
///
/// Nodes are held by the map directly, while for lanes only the index is
/// stored. Thus a map is only valid together with the lanes of the board
/// that it was constructed for.
pub struct PortMap<N: Node>(pub(crate) [PortMapEntry<N>; 288]);

impl<N: Node> PortMap<N> {
    /// What the given port is mapped to.
    pub open(crate) spec fn spec_get(&self, port: Port) -> PortUse {
        self.0@[port.address()].spec_use()
    }

    /// The node that the given port is mapped to.
    pub fn get_node(&self, port: Port) -> (r: Option<N>)
        ensures
            match self.spec_get(port) {
                PortUse::Node(id) => r is Some && r->0.spec_id() == id,
                _ => r is None,
            },
    {
        self.0[Self::address(port)].node()
    }

    /// The index of the lane that the given port is mapped to.
    pub fn get_lane_index(&self, port: Port) -> (r: Option<usize>)
        ensures
            match self.spec_get(port) {
                PortUse::Lane(index) => r == Some(index) && index < 0x7F,
                _ => r is None,
            },
    {
        self.0[Self::address(port)].lane_index()
    }

    /// Maps the given port to the given node.
    pub fn set_node(&mut self, port: Port, node: N)
        ensures
            final(self).spec_get(port) == PortUse::Node(node.spec_id()),
            forall|other: Port|
                other.wf() && other != port ==> final(self).spec_get(other) == old(self).spec_get(
                    other,
                ),
    {
        let address = Self::address(port);
        self.0[address] = PortMapEntry::new_node(node);
        proof {
            assert forall|other: Port| other.wf() && other != port implies final(self).spec_get(
                other,
            ) == old(self).spec_get(other) by {
                other.lemma_address();
            }
        }
    }

    /// Maps the given port to the lane with the given index.
    pub fn set_lane_index(&mut self, port: Port, index: usize)
        requires
            index < 0x7F,
        ensures
            final(self).spec_get(port) == PortUse::Lane(index),
            forall|other: Port|
                other.wf() && other != port ==> final(self).spec_get(other) == old(self).spec_get(
                    other,
                ),
    {
        let address = Self::address(port);
        self.0[address] = PortMapEntry::new_lane_index(index);
        proof {
            assert forall|other: Port| other.wf() && other != port implies final(self).spec_get(
                other,
            ) == old(self).spec_get(other) by {
                other.lemma_address();
            }
        }
    }

    /// Position of the entry for the given port.
    fn address(port: Port) -> (r: usize)
        ensures
            r == port.address(),
            r < 288,
            port.wf(),
    {
        proof {
            use_type_invariant(port);
            port.lemma_address();
        }
        port.chip_id().index() * 24 + port.dimension().index() * 16 + port.index() as usize
    }
}

impl<N: Node> Default for PortMap<N> {
    /// The map in which no port is mapped to anything.
    fn default() -> (r: Self)
        ensures
            forall|port: Port| port.wf() ==> r.spec_get(port) == PortUse::Unused,
    {
        let r = Self([PortMapEntry::new_none();288]);
        proof {
            assert forall|port: Port| port.wf() implies r.spec_get(port) == PortUse::Unused by {
                port.lemma_address();
            }
        }
        r
    }
}

} // verus!
