//! Sets of ports.

use vstd::prelude::*;

use crate::bits::{
    bit8, bitmap_has, lemma_bit8_subset, lemma_bitmap_clear, lemma_bitmap_full, lemma_bitmap_set,
    lemma_bitmap_zero,
};
use crate::port::{all_ports, lemma_port_count, Port};

verus! {

/// A set of ports, kept as a bitmap with one bit for each of the 288 ports.
#[derive(Eq, PartialEq)]
pub struct PortSet(pub(crate) [u8; 36]);

impl PortSet {
    /// The ports in the set: those whose bit, at the port's address, is set.
    pub open(crate) spec fn view(&self) -> Set<Port> {
        Set::new(|port: Port| port.wf() && bitmap_has(self.0@, port.address()))
    }

    /// Constructs a new set containing no ports.
    pub fn empty() -> (r: Self)
        ensures
            r@ == Set::<Port>::empty(),
    {
        let r = Self([0; 36]);
        proof {
            assert forall|port: Port| !r@.contains(port) by {
                lemma_bitmap_zero(r.0@, port.address());
            }
            assert(r@ =~= Set::<Port>::empty());
        }
        r
    }

    /// Constructs a new set containing all ports.
    pub fn full() -> (r: Self)
        ensures
            r@ == Set::new(|port: Port| port.wf()),
    {
        let r = Self([0xFF; 36]);
        proof {
            assert forall|port: Port| port.wf() implies r@.contains(port) by {
                port.lemma_address();
                lemma_bitmap_full(r.0@, port.address());
            }
            assert(r@ =~= Set::new(|port: Port| port.wf()));
        }
        r
    }

    /// Checks if the given port is included.
    pub fn contains(&self, port: Port) -> (r: bool)
        ensures
            r == self@.contains(port),
    {
        let (i, j) = Self::address(port);
        (self.0[i] >> j) & 1 == 1
    }

    /// Adds the given port.
    pub fn insert(&mut self, port: Port)
        ensures
            final(self)@ == old(self)@.insert(port),
    {
        let (i, j) = Self::address(port);
        self.0[i] = self.0[i] | (1u8 << j);
        proof {
            assert forall|p: Port| final(self)@.contains(p) == old(self)@.insert(port).contains(
                p,
            ) by {
                lemma_bitmap_set(old(self).0@, port.address(), p.address());
                if p.wf() {
                    p.lemma_address();
                }
            }
            assert(final(self)@ =~= old(self)@.insert(port));
        }
    }

    /// Removes the given port.
    pub fn remove(&mut self, port: Port)
        ensures
            final(self)@ == old(self)@.remove(port),
    {
        let (i, j) = Self::address(port);
        self.0[i] = self.0[i] & !(1u8 << j);
        proof {
            assert forall|p: Port| final(self)@.contains(p) == old(self)@.remove(port).contains(
                p,
            ) by {
                lemma_bitmap_clear(old(self).0@, port.address(), p.address());
                if p.wf() {
                    p.lemma_address();
                }
            }
            assert(final(self)@ =~= old(self)@.remove(port));
        }
    }

    /// Checks if all of the ports of `other` are also part of `self`.
    pub fn is_superset(&self, other: &Self) -> (r: bool)
        ensures
            r == other@.subset_of(self@),
    {
        let mut i: usize = 0;
        while i < 36
            invariant
                i <= 36,
                forall|a: int| 0 <= a < 8 * i && bitmap_has(other.0@, a) ==> bitmap_has(self.0@, a),
            decreases 36 - i,
        {
            let byte = self.0[i];
            proof {
                lemma_bit8_subset(other.0[i as int], byte);
            }
            if other.0[i] & byte != other.0[i] {
                proof {
                    let k = choose|k: int| bit8(other.0[i as int], k) && !bit8(byte, k);
                    let a = 8 * i + k;
                    assert(a / 8 == i && a % 8 == k);
                    Port::lemma_from_address(a);
                    let port = Port::from_address(a);
                    assert(other@.contains(port) && !self@.contains(port));
                }
                return false;
            }
            proof {
                assert forall|a: int|
                    0 <= a < 8 * (i + 1) && bitmap_has(other.0@, a) implies bitmap_has(
                    self.0@,
                    a,
                ) by {
                    if a >= 8 * i {
                        assert(a / 8 == i);
                    }
                }
            }
            i += 1;
        }
        proof {
            assert forall|port: Port| other@.contains(port) implies self@.contains(port) by {
                port.lemma_address();
            }
        }
        true
    }

    /// A set of ports is finite, with at most 288 members.
    pub proof fn lemma_bounded(&self)
        ensures
            self@.finite(),
            self@.len() <= 288,
    {
        assert(self@.subset_of(all_ports()));
        lemma_port_count(self@);
    }

    /// Byte and bit at which the given port is kept.
    fn address(port: Port) -> (r: (usize, u8))
        ensures
            r.0 < 36,
            r.1 < 8,
            r.0 == port.address() / 8,
            r.1 == port.address() % 8,
            0 <= port.address() < 288,
            port.wf(),
    {
        proof {
            use_type_invariant(port);
            port.lemma_address();
        }
        let bit_address = port.chip_id().index() * 24 + port.dimension().index() * 16
            + port.index() as usize;
        (bit_address / 8, (bit_address % 8) as u8)
    }
}

} // verus!
