//! The message that tells a crosspoint chip to set one of its switches.

use vstd::prelude::*;

use crate::crosspoint::Crosspoint;

verus! {

/// One message to a chip: the column and the row of a switch, and whether
/// to close or to open it.
#[derive(Copy, Clone, PartialEq, Eq, Structural, Debug)]
pub struct Packet(pub(crate) u8);

impl Packet {
    /// The byte of the message.
    pub open(crate) spec fn spec_byte(&self) -> u8 {
        self.0
    }

    /// The message for the switch at column `x` and row `y`: the lowest
    /// bit says whether to connect, the next four bits hold the column, and
    /// the three highest bits hold the row.
    pub fn new(x: u8, y: u8, connect: bool) -> (r: Self)
        ensures
            r.spec_byte() == (x << 1) | (y << 5) | (if connect {
                1u8
            } else {
                0u8
            }),
    {
        Self((x << 1) | (y << 5) | if connect { 1 } else { 0 })
    }

    /// The byte of the message.
    #[verifier::when_used_as_spec(spec_byte)]
    pub fn byte(&self) -> (r: u8)
        ensures
            r == self.spec_byte(),
    {
        self.0
    }

    /// The word that is handed to the transmitter: the byte of the
    /// message in the highest eight bits.
    pub fn word(&self) -> (r: u32)
        ensures
            r == (self.spec_byte() as u32) << 24,
    {
        (self.0 as u32) << 24
    }

    /// The message that closes the switch of the given crosspoint.
    pub fn from_crosspoint(crosspoint: Crosspoint) -> (r: Self)
        ensures
            r.spec_byte() == (crosspoint.x << 1) | (crosspoint.y << 5) | 1u8,
    {
        Self::new(crosspoint.x, crosspoint.y, true)
    }
}

/// The parts of a message can be read back from its byte, for every switch
/// of a chip.
pub proof fn lemma_packet_fields(x: u8, y: u8, connect: bool)
    requires
        x < 16,
        y < 8,
    ensures
        ({
            let byte = (x << 1) | (y << 5) | (if connect {
                1u8
            } else {
                0u8
            });
            &&& (byte >> 1) & 0xF == x
            &&& byte >> 5 == y
            &&& (byte & 1 == 1) == connect
        }),
{
    let bit = if connect {
        1u8
    } else {
        0u8
    };
    assert({
        let byte = (x << 1) | (y << 5) | bit;
        &&& (byte >> 1) & 0xF == x
        &&& byte >> 5 == y
        &&& (byte & 1 == 1) == (bit == 1)
    }) by (bit_vector)
        requires
            x < 16,
            y < 8,
            bit == 0 || bit == 1,
    ;
}

} // verus!
