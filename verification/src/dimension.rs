//! The two dimensions of a chip's switch matrix.

use vstd::prelude::*;



verus! {

/// Either X or Y. Used to specify ports and edges.
#[derive(Copy, Clone, PartialEq, Eq, Structural, Debug)]
pub enum Dimension {
    X,
    Y,
}

impl Dimension {
    /// The other dimension.
    pub open spec fn spec_orthogonal(&self) -> Dimension {
        match self {
            Dimension::X => Dimension::Y,
            Dimension::Y => Dimension::X,
        }
    }

    /// 0 for X, 1 for Y.
    pub open spec fn spec_index(&self) -> int {
        match self {
            Dimension::X => 0,
            Dimension::Y => 1,
        }
    }

    /// Number of ports on one edge of this dimension: 16 for X, 8 for Y.
    pub open spec fn spec_port_count(&self) -> int {
        match self {
            Dimension::X => 16,
            Dimension::Y => 8,
        }
    }

    /// The dimension with the given index.
    pub open spec fn spec_from_index(index: int) -> Dimension {
        if index == 0 {
            Dimension::X
        } else {
            Dimension::Y
        }
    }

    /// Orthogonal dimension: X returns Y, Y returns X.
    #[verifier::when_used_as_spec(spec_orthogonal)]
    pub fn orthogonal(&self) -> (r: Self)
        ensures
            r == self.spec_orthogonal(),
    {
        match self {
            Dimension::X => Dimension::Y,
            Dimension::Y => Dimension::X,
        }
    }

    /// Index of this dimension within data structures: X is 0, Y is 1.
    pub fn index(&self) -> (r: usize)
        ensures
            r == self.spec_index(),
    {
        match self {
            Dimension::X => 0,
            Dimension::Y => 1,
        }
    }

    /// Turns an index (0 or 1) into a dimension (X or Y).
    pub fn from_index(index: usize) -> (r: Self)
        requires
            index < 2,
        ensures
            r == Self::spec_from_index(index as int),
            r.spec_index() == index,
    {
        if index == 0 {
            Dimension::X
        } else {
            Dimension::Y
        }
    }

    /// Number of ports that a chip has in this dimension: 16 for X, 8 for Y.
    pub fn port_count(&self) -> (r: u8)
        ensures
            r == self.spec_port_count(),
    {
        match self {
            Dimension::X => 16,
            Dimension::Y => 8,
        }
    }
}

} // verus!
