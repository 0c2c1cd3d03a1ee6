//! Crosspoints, and the bitmap that holds one bit for each of them.

use vstd::prelude::*;

use crate::bits::{bitmap_has, lemma_bitmap_clear, lemma_bitmap_set, lemma_bitmap_zero};
use crate::chip_id::ChipId;
use crate::net_id::NetId;

verus! {

/// A single crosspoint coordinate, with the net that it belongs to.
///
/// Stands for one switch of the board, by chip, X and Y coordinate.
#[derive(Copy, Clone, PartialEq, Eq, Structural, Debug)]
pub struct Crosspoint {
    pub chip: ChipId,
    pub net_id: NetId,
    pub x: u8,
    pub y: u8,
}

impl Crosspoint {
    /// The coordinates are those of a switch.
    pub open spec fn wf(self) -> bool {
        self.chip.wf() && self.x < 16 && self.y < 8
    }

    /// Position of the switch among the 1536 switches: chips in order, on
    /// each chip the columns in order, and in each column the rows.
    pub open spec fn address(self) -> int {
        (self.chip.spec_index() * 16 + self.x) * 8 + self.y
    }
}

/// The ASCII digit of a value below 16, in upper case.
pub open spec fn hex_digit(value: u8) -> u8 {
    if value < 10 {
        (48 + value) as u8
    } else {
        (55 + value) as u8
    }
}

/// A crosspoint config holds one bit for each of the 1536 switches.
pub struct CrosspointConfig(pub(crate) [u8; 192]);

impl CrosspointConfig {
    /// The addresses of the switches that are closed.
    pub open(crate) spec fn view(&self) -> Set<int> {
        Set::new(|address: int| bitmap_has(self.0@, address))
    }

    /// The bytes of the bitmap: bit `y` of byte `chip * 16 + x` stands for
    /// the switch at `(chip, x, y)`.
    pub open(crate) spec fn bytes(&self) -> Seq<u8> {
        self.0@
    }

    /// The config in which the given switches are closed, and no others.
    pub fn from_crosspoints(crosspoints: &[Crosspoint]) -> (r: Self)
        requires
            forall|i: int| 0 <= i < crosspoints@.len() ==> crosspoints@[i].x < 16 && crosspoints@[i].y < 8,
        ensures
            r@ == crosspoints@.map_values(|crosspoint: Crosspoint| crosspoint.address()).to_set(),
    {
        let ghost address_of = |crosspoint: Crosspoint| crosspoint.address();
        let mut config = CrosspointConfig([0; 192]);
        let mut i: usize = 0;
        proof {
            assert forall|address: int| !config@.contains(address) by {
                lemma_bitmap_zero(config.0@, address);
            }
            assert(crosspoints@.take(0).map_values(address_of) =~= Seq::<int>::empty());
            assert(config@ =~= crosspoints@.take(0).map_values(address_of).to_set());
        }
        while i < crosspoints.len()
            invariant
                i <= crosspoints@.len(),
                forall|i: int|
                    0 <= i < crosspoints@.len() ==> crosspoints@[i].x < 16 && crosspoints@[i].y < 8,
                address_of == (|crosspoint: Crosspoint| crosspoint.address()),
                config@ == crosspoints@.take(i as int).map_values(address_of).to_set(),
            decreases crosspoints@.len() - i,
        {
            let crosspoint = crosspoints[i];
            config.set(crosspoint);
            proof {
                let before = crosspoints@.take(i as int).map_values(address_of);
                let after = crosspoints@.take(i + 1).map_values(address_of);
                assert(after =~= before.push(crosspoint.address()));
                assert forall|address: int|
                    after.to_set().contains(address) == before.to_set().insert(
                        crosspoint.address(),
                    ).contains(address) by {
                    if before.contains(address) {
                        let k = choose|k: int| 0 <= k < before.len() && before[k] == address;
                        assert(after[k] == address);
                    }
                    if after.contains(address) {
                        let k = choose|k: int| 0 <= k < after.len() && after[k] == address;
                        if k < i {
                            assert(before[k] == address);
                        }
                    }
                    assert(after[i as int] == crosspoint.address());
                }
                assert(after.to_set() =~= before.to_set().insert(crosspoint.address()));
            }
            i += 1;
        }
        proof {
            assert(crosspoints@.take(crosspoints@.len() as int) =~= crosspoints@);
        }
        config
    }

    /// Is the given switch closed?
    pub fn get(&self, crosspoint: Crosspoint) -> (r: bool)
        requires
            crosspoint.x < 16,
            crosspoint.y < 8,
        ensures
            r == self@.contains(crosspoint.address()),
    {
        let i = crosspoint.chip.index() * 16 + crosspoint.x as usize;
        proof {
            let a = crosspoint.address();
            assert(a / 8 == i && a % 8 == crosspoint.y);
        }
        (self.0[i] >> crosspoint.y) & 1 == 1
    }

    /// Closes the given switch.
    pub fn set(&mut self, crosspoint: Crosspoint)
        requires
            crosspoint.x < 16,
            crosspoint.y < 8,
        ensures
            final(self)@ == old(self)@.insert(crosspoint.address()),
    {
        let i = crosspoint.chip.index() * 16 + crosspoint.x as usize;
        proof {
            let a = crosspoint.address();
            assert(a / 8 == i && a % 8 == crosspoint.y);
        }
        self.0[i] = self.0[i] | (1u8 << crosspoint.y);
        proof {
            assert forall|k: int|
                final(self)@.contains(k) == old(self)@.insert(crosspoint.address()).contains(
                    k,
                ) by {
                lemma_bitmap_set(old(self).0@, crosspoint.address(), k);
            }
            assert(final(self)@ =~= old(self)@.insert(crosspoint.address()));
        }
    }

    /// Opens the given switch.
    pub fn clear(&mut self, crosspoint: Crosspoint)
        requires
            crosspoint.x < 16,
            crosspoint.y < 8,
        ensures
            final(self)@ == old(self)@.remove(crosspoint.address()),
    {
        let i = crosspoint.chip.index() * 16 + crosspoint.x as usize;
        proof {
            let a = crosspoint.address();
            assert(a / 8 == i && a % 8 == crosspoint.y);
        }
        self.0[i] = self.0[i] & !(1u8 << crosspoint.y);
        proof {
            assert forall|k: int|
                final(self)@.contains(k) == old(self)@.remove(crosspoint.address()).contains(
                    k,
                ) by {
                lemma_bitmap_clear(old(self).0@, crosspoint.address(), k);
            }
            assert(final(self)@ =~= old(self)@.remove(crosspoint.address()));
        }
    }

    /// The bitmap as 384 hexadecimal digits in upper case, two for each
    /// byte, the high half of the byte first.
    pub fn to_hex_bytes(&self) -> (r: [u8; 384])
        ensures
            forall|i: int|
                0 <= i < 192 ==> r@[2 * i] == hex_digit(#[trigger] self.bytes()[i] >> 4) && r@[2 * i
                    + 1] == hex_digit(self.bytes()[i] & 0xF),
    {
        let mut buf = [0u8; 384];
        let mut i: usize = 0;
        while i < 192
            invariant
                i <= 192,
                forall|k: int|
                    0 <= k < i ==> buf@[2 * k] == hex_digit(#[trigger] self.bytes()[k] >> 4) && buf@[2
                        * k + 1] == hex_digit(self.bytes()[k] & 0xF),
            decreases 192 - i,
        {
            let byte = self.0[i];
            let high = (byte >> 4) & 0xF;
            let low = byte & 0xF;
            proof {
                assert((byte >> 4) & 0xF == byte >> 4 && byte >> 4 < 16 && byte & 0xF < 16)
                    by (bit_vector);
            }
            buf[i * 2] = hex_char(high);
            buf[i * 2 + 1] = hex_char(low);
            i += 1;
        }
        buf
    }
}

/// The upper-case hexadecimal digit of a value below 16.
fn hex_char(value: u8) -> (r: u8)
    requires
        value < 16,
    ensures
        r == hex_digit(value),
{
    if value < 10 {
        48 + value
    } else {
        55 + value
    }
}

} // verus!
