//! The identifiers of nets.

use vstd::prelude::*;



verus! {

/// Identifier for a net: a number from 1 to 255, unique within a netlist.
#[derive(Copy, Clone, PartialEq, Eq, Structural, Hash, Debug)]
pub struct NetId(pub(crate) u8);

impl NetId {
    /// The number is not zero.
    #[verifier::type_invariant]
    pub open(crate) spec fn wf(self) -> bool {
        self.0 != 0
    }

    /// The net's number.
    pub open(crate) spec fn spec_number(&self) -> u8 {
        self.0
    }

    /// Nets with numbers 1..=7 are special.
    pub open spec fn spec_is_special(&self) -> bool {
        self.spec_number() <= 7
    }

    /// The net's number minus one.
    pub open spec fn spec_index(&self) -> int {
        self.spec_number() - 1
    }

    /// Constructs the identifier with the given number, unless it is zero.
    pub fn new(number: u8) -> (r: Option<Self>)
        ensures
            number != 0 ==> r is Some && r->0.spec_number() == number,
            number == 0 ==> r is None,
    {
        if number != 0 {
            Some(Self(number))
        } else {
            None
        }
    }

    /// The net's number, which is never zero.
    #[verifier::when_used_as_spec(spec_number)]
    pub fn number(&self) -> (r: u8)
        ensures
            r == self.spec_number(),
            r != 0,
    {
        proof {
            use_type_invariant(self);
        }
        self.0
    }

    /// Nets with numbers 1..=7 are "special".
    #[verifier::when_used_as_spec(spec_is_special)]
    pub fn is_special(&self) -> (r: bool)
        ensures
            r == self.spec_is_special(),
    {
        self.0 <= 7
    }

    /// Returns the index of this net: always the net number minus one.
    pub fn index(&self) -> (r: usize)
        ensures
            r == self.spec_index(),
            r < 255,
    {
        proof {
            use_type_invariant(self);
        }
        (self.0 - 1) as usize
    }

    /// Constructs the identifier of the net with the given index.
    pub fn from_index(index: usize) -> (r: Self)
        requires
            index < 255,
        ensures
            r.spec_index() == index,
            r.spec_number() == index + 1,
    {
        Self(index as u8 + 1)
    }
}

} // verus!
