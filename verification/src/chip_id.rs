//! The twelve crosspoint chips, by letter and by index.

use vstd::prelude::*;

use crate::dimension::Dimension;
use crate::port::Port;

verus! {

/// One of the twelve crosspoint chips.
///
/// Chips are identified either by index (`0..=11`) or by letter (`'A'..='L'`).
#[derive(Copy, Clone, Hash, PartialEq, Eq, Structural, Debug)]
pub struct ChipId(pub(crate) u8);

impl ChipId {
    /// The letter held is one of `'A'..='L'`.
    #[verifier::type_invariant]
    pub open(crate) spec fn wf(self) -> bool {
        65 <= self.0 <= 76
    }

    /// The chip's letter, as an ASCII value.
    pub open(crate) spec fn spec_ascii(&self) -> u8 {
        self.0
    }

    /// The chip's index: the distance of its letter from `'A'`.
    pub open spec fn spec_index(&self) -> int {
        self.spec_ascii() - 65
    }

    /// The chip with the given index.
    pub open(crate) spec fn spec_from_index(index: int) -> ChipId {
        ChipId((65 + index) as u8)
    }

    /// Returns the letter of this chip as an ASCII character ('A' through 'L').
    pub fn ascii(&self) -> (r: u8)
        ensures
            r == self.spec_ascii(),
            65 <= r <= 76,
    {
        proof {
            use_type_invariant(self);
        }
        self.0
    }

    /// Returns the index of this chip: 0 (for chip A) through 11 (for chip L).
    pub fn index(&self) -> (r: usize)
        ensures
            r == self.spec_index(),
            r < 12,
    {
        proof {
            use_type_invariant(self);
        }
        (self.0 - 65) as usize
    }

    /// Constructs the chip with the given index: 0 is chip A, 11 is chip L.
    pub fn from_index(index: usize) -> (r: Self)
        requires
            index < 12,
        ensures
            r == Self::spec_from_index(index as int),
            r.spec_index() == index,
            r.spec_ascii() == 65 + index,
    {
        Self(65 + index as u8)
    }

    /// Constructs the chip with the given ASCII letter, `'A'..='L'`.
    pub fn from_ascii(ascii: u8) -> (r: Self)
        requires
            65 <= ascii <= 76,
        ensures
            r.spec_ascii() == ascii,
    {
        Self(ascii)
    }

    /// Constructs the chip with the given ASCII letter, if there is one.
    pub fn try_from_ascii(ascii: u8) -> (r: Option<Self>)
        ensures
            65 <= ascii <= 76 ==> r is Some && r->0.spec_ascii() == ascii,
            !(65 <= ascii <= 76) ==> r is None,
    {
        if 65 <= ascii && ascii <= 76 {
            Some(Self(ascii))
        } else {
            None
        }
    }

    /// The port on the X edge of this chip, at the given index.
    pub fn port_x(&self, x: u8) -> (r: Port)
        requires
            x < 16,
        ensures
            r == Port::spec_new(*self, Dimension::X, x),
    {
        Port::new(*self, Dimension::X, x)
    }

    /// The port on the Y edge of this chip, at the given index.
    pub fn port_y(&self, y: u8) -> (r: Port)
        requires
            y < 8,
        ensures
            r == Port::spec_new(*self, Dimension::Y, y),
    {
        Port::new(*self, Dimension::Y, y)
    }
}

} // verus!
