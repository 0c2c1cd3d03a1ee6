//! The lanes that connect the chips.

use vstd::prelude::*;

use crate::edge::Edge;
use crate::port::Port;

verus! {

/// A physical connection between two ports.
#[derive(Copy, Clone, Debug)]
pub struct Lane(pub Port, pub Port);

impl Lane {
    /// Both ends are ports of the board.
    pub open spec fn wf(self) -> bool {
        self.0.wf() && self.1.wf()
    }

    /// One of the ends lies on the given edge.
    pub open spec fn spec_touches(&self, edge: Edge) -> bool {
        self.0.spec_edge() == edge || self.1.spec_edge() == edge
    }

    /// The ends lie on the two given edges, one on each.
    pub open spec fn spec_connects(&self, from: Edge, to: Edge) -> bool {
        (self.0.spec_edge() == from && self.1.spec_edge() == to) || (self.0.spec_edge() == to
            && self.1.spec_edge() == from)
    }

    /// The given port is one of the ends.
    pub open spec fn has_end(&self, port: Port) -> bool {
        self.0 == port || self.1 == port
    }

    /// The end across from the given one.
    pub open spec fn spec_opposite(&self, port: Port) -> Port {
        if self.0 == port {
            self.1
        } else {
            self.0
        }
    }

    /// Is one of the ports of this lane on the given edge?
    #[verifier::when_used_as_spec(spec_touches)]
    pub fn touches(&self, edge: Edge) -> (r: bool)
        ensures
            r == self.spec_touches(edge),
    {
        self.0.edge() == edge || self.1.edge() == edge
    }

    /// Does this lane connect these two edges?
    #[verifier::when_used_as_spec(spec_connects)]
    pub fn connects(&self, from: Edge, to: Edge) -> (r: bool)
        ensures
            r == self.spec_connects(from, to),
    {
        let a = self.0.edge();
        let b = self.1.edge();
        (a == from && b == to) || (a == to && b == from)
    }

    /// Given one of the ports of the lane, returns the opposite one.
    #[verifier::when_used_as_spec(spec_opposite)]
    pub fn opposite(&self, port: Port) -> (r: Port)
        requires
            self.has_end(port),
        ensures
            r == self.spec_opposite(port),
    {
        if self.0 == port {
            self.1
        } else {
            self.0
        }
    }
}

} // verus!
