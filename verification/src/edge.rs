//! The edges of the chips: the X side and the Y side of each.

use vstd::prelude::*;

use crate::chip_id::ChipId;
use crate::dimension::Dimension;
use crate::port::Port;

verus! {

/// One of the two sides (X or Y) of a specific chip.
#[derive(Copy, Clone, PartialEq, Eq, Structural, Debug)]
pub struct Edge(pub(crate) ChipId, pub(crate) Dimension);

impl Edge {
    /// The chip of the edge is one of the twelve.
    #[verifier::type_invariant]
    pub open(crate) spec fn wf(self) -> bool {
        self.0.wf()
    }

    /// The edge of the given chip in the given dimension.
    pub open(crate) spec fn spec_new(chip_id: ChipId, dimension: Dimension) -> Edge {
        Edge(chip_id, dimension)
    }

    /// The chip of the edge.
    pub open(crate) spec fn spec_chip_id(&self) -> ChipId {
        self.0
    }

    /// The dimension of the edge.
    pub open(crate) spec fn spec_dimension(&self) -> Dimension {
        self.1
    }

    /// The other side of the same chip.
    pub open spec fn spec_orthogonal(&self) -> Edge {
        Edge::spec_new(self.spec_chip_id(), self.spec_dimension().spec_orthogonal())
    }

    /// Position of the edge among the 24 edges: chips in order, X before Y.
    pub open spec fn address(&self) -> int {
        self.spec_chip_id().spec_index() * 2 + self.spec_dimension().spec_index()
    }

    /// The edge at the given position.
    pub open spec fn from_address(address: int) -> Edge {
        Edge::spec_new(ChipId::spec_from_index(address / 2), Dimension::spec_from_index(address % 2))
    }

    /// The port of this edge with the given index.
    pub open spec fn spec_port(&self, index: int) -> Port {
        Port::spec_new(self.spec_chip_id(), self.spec_dimension(), index as u8)
    }

    /// The ports of this edge, by ascending index.
    pub open spec fn spec_ports(&self) -> Seq<Port> {
        Seq::new(self.spec_dimension().spec_port_count() as nat, |i: int| self.spec_port(i))
    }

    /// The edge of the given chip in the given dimension.
    pub fn new(chip_id: ChipId, dimension: Dimension) -> (r: Self)
        ensures
            r == Edge::spec_new(chip_id, dimension),
    {
        proof {
            use_type_invariant(chip_id);
        }
        Self(chip_id, dimension)
    }

    /// The chip of the edge.
    #[verifier::when_used_as_spec(spec_chip_id)]
    pub fn chip_id(&self) -> (r: ChipId)
        ensures
            r == self.spec_chip_id(),
    {
        self.0
    }

    /// The dimension of the edge.
    #[verifier::when_used_as_spec(spec_dimension)]
    pub fn dimension(&self) -> (r: Dimension)
        ensures
            r == self.spec_dimension(),
    {
        self.1
    }

    /// Returns the orthogonal edge on the same chip.
    #[verifier::when_used_as_spec(spec_orthogonal)]
    pub fn orthogonal(&self) -> (r: Self)
        ensures
            r == self.spec_orthogonal(),
    {
        proof {
            use_type_invariant(self);
        }
        Self(self.0, self.1.orthogonal())
    }

    /// All the ports on this edge, by ascending index.
    pub fn ports(&self) -> (r: Vec<Port>)
        ensures
            r@ == self.spec_ports(),
    {
        proof {
            use_type_invariant(self);
        }
        let count = self.1.port_count();
        let mut ports: Vec<Port> = Vec::new();
        let mut index: u8 = 0;
        while index < count
            invariant
                index <= count,
                count == self.1.spec_port_count(),
                self.0.wf(),
                ports@ == Seq::new(index as nat, |i: int| self.spec_port(i)),
            decreases count - index,
        {
            ports.push(Port::new(self.0, self.1, index));
            index += 1;
        }
        ports
    }

    /// The edges are told apart by their addresses.
    pub proof fn lemma_address(self)
        requires
            self.wf(),
        ensures
            0 <= self.address() < 24,
            Edge::from_address(self.address()) == self,
    {
    }

    /// Every address below 24 belongs to an edge.
    pub proof fn lemma_from_address(address: int)
        requires
            0 <= address < 24,
        ensures
            Edge::from_address(address).wf(),
            Edge::from_address(address).address() == address,
    {
    }
}

} // verus!
