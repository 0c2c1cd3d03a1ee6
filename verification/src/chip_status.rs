//! The assignment of ports to nets, and the crosspoints that follow from
//! it.

use vstd::prelude::*;

use crate::chip_id::ChipId;
use crate::crosspoint::Crosspoint;
use crate::dimension::Dimension;
use crate::error::Error;
use crate::lane::Lane;
use crate::net_id::NetId;
use crate::port::Port;
use crate::search::{first_index, lemma_first_index, lemma_first_index_is, lemma_first_index_none};

verus! {

/// What one chip's ports are assigned to.
pub(crate) struct ChipStatusEntry {
    pub(crate) x: [Option<NetId>; 16],
    pub(crate) y: [Option<NetId>; 8],
}

impl ChipStatusEntry {
    /// The entry of a chip with no port assigned.
    pub(crate) fn unassigned() -> (r: Self)
        ensures
            forall|j: int| 0 <= j < 16 ==> r.x@[j] is None,
            forall|j: int| 0 <= j < 8 ==> r.y@[j] is None,
    {
        ChipStatusEntry {
            x: [
                None,
                None,
                None,
                None,
                None,
                None,
                None,
                None,
                None,
                None,
                None,
                None,
                None,
                None,
                None,
                None,
            ],
            y: [None, None, None, None, None, None, None, None],
        }
    }
}

/// Assigns a net to every port on every chip.
///
/// This is an intermediate structure, used to build chip connections from
/// netlists. At first all ports are unassigned. `set` and `set_lane` assign
/// a net to one or two ports. A given port can only be set once, so that no
/// two nets are ever joined by accident. Once the assignment is complete,
/// `crosspoints` gives the switches to close.
pub struct ChipStatus(pub(crate) [ChipStatusEntry; 12]);

/// After `port` is assigned to `net`: the new assignment, or the error
/// where the port is assigned already.
pub open spec fn spec_set(status: Map<Port, NetId>, port: Port, net: NetId) -> Result<
    Map<Port, NetId>,
    Error,
> {
    if status.dom().contains(port) {
        Err(Error::PortAlreadyAssigned { port, existing: status[port], requested: net })
    } else {
        Ok(status.insert(port, net))
    }
}

/// After both ends of `lane` are assigned to `net`, the first end first.
pub open spec fn spec_set_lane(status: Map<Port, NetId>, lane: Lane, net: NetId) -> Result<
    Map<Port, NetId>,
    Error,
> {
    match spec_set(status, lane.0, net) {
        Ok(first) => spec_set(first, lane.1, net),
        Err(error) => Err(error),
    }
}

/// The chip of the switch at the given address.
pub open spec fn chip_at(address: int) -> ChipId {
    ChipId::spec_from_index(address / 128)
}

/// The column of the switch at the given address.
pub open spec fn x_at(address: int) -> u8 {
    ((address % 128) / 8) as u8
}

/// The row of the switch at the given address.
pub open spec fn y_at(address: int) -> u8 {
    (address % 8) as u8
}

/// The switch at the given address is to be closed: its column and its row
/// are assigned, and to the same net.
pub open spec fn is_closed(status: Map<Port, NetId>, address: int) -> bool {
    let column = Port::spec_new(chip_at(address), Dimension::X, x_at(address));
    let row = Port::spec_new(chip_at(address), Dimension::Y, y_at(address));
    status.dom().contains(column) && status.dom().contains(row) && status[column] == status[row]
}

/// Says of an address whether the switch there is to be closed.
pub open spec fn closed_in(status: Map<Port, NetId>) -> spec_fn(int) -> bool {
    |address: int| is_closed(status, address)
}

/// The crosspoint at the given address, which is to be closed.
pub open spec fn crosspoint_at(status: Map<Port, NetId>, address: int) -> Crosspoint {
    Crosspoint {
        chip: chip_at(address),
        net_id: status[Port::spec_new(chip_at(address), Dimension::X, x_at(address))],
        x: x_at(address),
        y: y_at(address),
    }
}

/// The crosspoints to close, of the switches with an address of at least
/// `from`, by ascending address.
pub open spec fn crosspoints_from(status: Map<Port, NetId>, from: int) -> Seq<Crosspoint>
    decreases 1536 - from,
{
    if from >= 1536 {
        Seq::empty()
    } else if is_closed(status, from) {
        seq![crosspoint_at(status, from)] + crosspoints_from(status, from + 1)
    } else {
        crosspoints_from(status, from + 1)
    }
}

/// The crosspoints from an address on are those from the first closed
/// switch on.
pub proof fn lemma_crosspoints_from(status: Map<Port, NetId>, from: int)
    requires
        0 <= from,
    ensures
        crosspoints_from(status, from) == match first_index(from, 1536, closed_in(status)) {
            Some(address) => seq![crosspoint_at(status, address)] + crosspoints_from(
                status,
                address + 1,
            ),
            None => Seq::empty(),
        },
    decreases 1536 - from,
{
    if from < 1536 && !is_closed(status, from) {
        lemma_crosspoints_from(status, from + 1);
    }
}

impl ChipStatus {
    /// The net that the given port is assigned to.
    pub open(crate) spec fn spec_get(&self, port: Port) -> Option<NetId> {
        let entry = self.0@[port.spec_chip_id().spec_index()];
        match port.spec_dimension() {
            Dimension::X => entry.x@[port.spec_index() as int],
            Dimension::Y => entry.y@[port.spec_index() as int],
        }
    }

    /// The assignment: the ports that are assigned, each with its net.
    pub open spec fn view(&self) -> Map<Port, NetId> {
        Map::new(
            |port: Port| port.wf() && self.spec_get(port) is Some,
            |port: Port| self.spec_get(port)->0,
        )
    }

    /// Removes all net assignments.
    pub fn clear(&mut self)
        ensures
            final(self)@ == Map::<Port, NetId>::empty(),
    {
        let mut i: usize = 0;
        while i < 12
            invariant
                i <= 12,
                forall|k: int, j: int| 0 <= k < i && 0 <= j < 16 ==> self.0@[k].x@[j] is None,
                forall|k: int, j: int| 0 <= k < i && 0 <= j < 8 ==> self.0@[k].y@[j] is None,
            decreases 12 - i,
        {
            self.0[i] = ChipStatusEntry::unassigned();
            i += 1;
        }
        proof {
            assert(final(self)@ =~= Map::<Port, NetId>::empty());
        }
    }

    /// Retrieves the net assigned to the given port.
    pub fn get(&self, port: Port) -> (r: Option<NetId>)
        ensures
            r == (if self@.dom().contains(port) {
                Some(self@[port])
            } else {
                None
            }),
            port.wf(),
    {
        proof {
            use_type_invariant(port);
        }
        let chip = port.chip_id().index();
        let index = port.index() as usize;
        match port.dimension() {
            Dimension::X => self.0[chip].x[index],
            Dimension::Y => self.0[chip].y[index],
        }
    }

    /// Assigns the given net to the given port, which must not be assigned
    /// to any net yet, not even to the same one.
    pub fn set(&mut self, port: Port, net: NetId) -> (r: Result<(), Error>)
        ensures
            match spec_set(old(self)@, port, net) {
                Ok(status) => r is Ok && final(self)@ == status,
                Err(error) => r == Err::<(), Error>(error) && final(self)@ == old(self)@,
            },
    {
        if let Some(existing) = self.get(port) {
            return Err(Error::PortAlreadyAssigned { port, existing, requested: net });
        }
        let chip = port.chip_id().index();
        let index = port.index() as usize;
        match port.dimension() {
            Dimension::X => {
                self.0[chip].x[index] = Some(net);
            },
            Dimension::Y => {
                self.0[chip].y[index] = Some(net);
            },
        }
        proof {
            assert forall|other: Port| other.wf() && other != port implies final(self).spec_get(
                other,
            ) == old(self).spec_get(other) by {
                other.lemma_address();
                port.lemma_address();
            }
            assert(final(self)@ =~= old(self)@.insert(port, net));
        }
        Ok(())
    }

    /// Assigns the given net to both ends of the given lane, the first end
    /// first.
    pub fn set_lane(&mut self, lane: Lane, net: NetId) -> (r: Result<(), Error>)
        ensures
            match spec_set_lane(old(self)@, lane, net) {
                Ok(status) => r is Ok && final(self)@ == status,
                Err(error) => r == Err::<(), Error>(error) && final(self)@ == match spec_set(
                    old(self)@,
                    lane.0,
                    net,
                ) {
                    Ok(first) => first,
                    Err(_) => old(self)@,
                },
            },
    {
        match self.set(lane.0, net) {
            Ok(()) => self.set(lane.1, net),
            Err(error) => Err(error),
        }
    }

    /// Is the given port available, that is, has it no net assigned to it?
    pub fn available(&self, port: Port) -> (r: bool)
        ensures
            r == !self@.dom().contains(port),
    {
        self.get(port).is_none()
    }

    /// An iterator over all the crosspoints which must be set, that is,
    /// whose switch must be closed.
    pub fn crosspoints(&self) -> (r: CrosspointIterator<'_>)
        ensures
            r.status() == self@,
            r.position() == 0,
    {
        CrosspointIterator { cs: self, i: 0, x: 0, y: 0 }
    }
}

impl Default for ChipStatus {
    /// The status in which no port is assigned.
    fn default() -> (r: Self)
        ensures
            r@ == Map::<Port, NetId>::empty(),
    {
        let r = ChipStatus(
            [
                ChipStatusEntry::unassigned(),
                ChipStatusEntry::unassigned(),
                ChipStatusEntry::unassigned(),
                ChipStatusEntry::unassigned(),
                ChipStatusEntry::unassigned(),
                ChipStatusEntry::unassigned(),
                ChipStatusEntry::unassigned(),
                ChipStatusEntry::unassigned(),
                ChipStatusEntry::unassigned(),
                ChipStatusEntry::unassigned(),
                ChipStatusEntry::unassigned(),
                ChipStatusEntry::unassigned(),
            ],
        );
        proof {
            assert forall|port: Port| port.wf() implies r.spec_get(port) is None by {
                port.lemma_address();
            }
            assert(r@ =~= Map::<Port, NetId>::empty());
        }
        r
    }
}

/// Walks over the crosspoints that are to be connected: chip by chip, on
/// each chip column by column, and in each column row by row.
pub struct CrosspointIterator<'a> {
    pub(crate) cs: &'a ChipStatus,
    pub(crate) i: usize,
    pub(crate) x: usize,
    pub(crate) y: usize,
}

impl<'a> CrosspointIterator<'a> {
    /// The place is that of a switch, or that behind the last one.
    #[verifier::type_invariant]
    pub open(crate) spec fn wf(self) -> bool {
        &&& self.i <= 12
        &&& self.x < 16
        &&& self.y < 8
        &&& self.i == 12 ==> self.x == 0 && self.y == 0
    }

    /// The assignment that the iterator walks over.
    pub open(crate) spec fn status(&self) -> Map<Port, NetId> {
        self.cs@
    }

    /// The address of the switch that the iterator looks at next.
    pub open(crate) spec fn position(&self) -> int {
        self.i * 128 + self.x * 8 + self.y
    }

    /// The next crosspoint to connect, if there is one left.
    pub fn next(&mut self) -> (r: Option<Crosspoint>)
        ensures
            final(self).status() == old(self).status(),
            match first_index(old(self).position(), 1536, closed_in(old(self).status())) {
                Some(address) => r == Some(crosspoint_at(old(self).status(), address))
                    && final(self).position() == address + 1,
                None => r is None && final(self).position() == 1536,
            },
    {
        let ghost status = self.status();
        let ghost start = self.position();
        proof {
            use_type_invariant(&*self);
        }
        loop
            invariant
                self.wf(),
                self.cs == old(self).cs,
                status == old(self).status(),
                start == old(self).position(),
                start <= self.position() <= 1536,
                forall|address: int|
                    start <= address < self.position() ==> !#[trigger] closed_in(status)(address),
            decreases 1536 - self.position(),
        {
            if self.i == 12 {
                proof {
                    lemma_first_index_none(start, 1536, closed_in(status));
                }
                return None;
            }
            let ghost here = self.position();
            let chip = ChipId::from_index(self.i);
            proof {
                assert(here / 128 == self.i && (here % 128) / 8 == self.x && here % 8 == self.y);
                let column = Port::spec_new(chip, Dimension::X, self.x as u8);
                let row = Port::spec_new(chip, Dimension::Y, self.y as u8);
                assert(column.wf() && row.wf());
            }
            match self.cs.0[self.i].x[self.x] {
                Some(x_net) => {
                    let found = match self.cs.0[self.i].y[self.y] {
                        Some(y_net) => x_net == y_net,
                        None => false,
                    };
                    let x = self.x as u8;
                    let y = self.y as u8;
                    self.advance_y();
                    if found {
                        proof {
                            lemma_first_index_is(start, 1536, closed_in(status), here);
                        }
                        return Some(Crosspoint { chip, x, y, net_id: x_net });
                    }
                },
                None => {
                    proof {
                        assert forall|address: int|
                            here <= address < self.i * 128 + self.x * 8
                                + 8 implies !#[trigger] closed_in(status)(address) by {
                            assert(address / 128 == self.i && (address % 128) / 8 == self.x);
                        }
                    }
                    self.advance_x();
                },
            }
        }
    }

    /// The crosspoints that are left, in order.
    pub fn collect(&mut self) -> (r: Vec<Crosspoint>)
        ensures
            r@ == crosspoints_from(old(self).status(), old(self).position()),
            final(self).status() == old(self).status(),
            final(self).position() == 1536,
    {
        let ghost status = self.status();
        let mut crosspoints: Vec<Crosspoint> = Vec::new();
        proof {
            use_type_invariant(&*self);
        }
        loop
            invariant
                self.status() == status,
                status == old(self).status(),
                0 <= self.position() <= 1536,
                crosspoints@ + crosspoints_from(status, self.position()) == crosspoints_from(
                    status,
                    old(self).position(),
                ),
            decreases 1536 - self.position(),
        {
            proof {
                use_type_invariant(&*self);
                lemma_crosspoints_from(status, self.position());
                lemma_first_index(self.position(), 1536, closed_in(status));
            }
            let ghost before = crosspoints@;
            let ghost here = self.position();
            match self.next() {
                Some(crosspoint) => {
                    crosspoints.push(crosspoint);
                    proof {
                        assert(crosspoints@ + crosspoints_from(status, self.position()) =~= before
                            + crosspoints_from(status, here));
                    }
                },
                None => {
                    proof {
                        assert(before + crosspoints_from(status, here) =~= before);
                    }
                    return crosspoints;
                },
            }
        }
    }

    /// Moves on to the start of the next column, on the next chip where
    /// this was the last column.
    fn advance_x(&mut self)
        requires
            old(self).i < 12,
        ensures
            final(self).cs == old(self).cs,
            final(self).position() == old(self).i * 128 + old(self).x * 8 + 8,
            final(self).wf(),
    {
        proof {
            use_type_invariant(&*self);
        }
        if self.x == 15 {
            self.x = 0;
            self.y = 0;
            self.i += 1;
        } else {
            self.x += 1;
            self.y = 0;
        }
    }

    /// Moves on to the next row, in the next column where this was the last
    /// row.
    fn advance_y(&mut self)
        requires
            old(self).i < 12,
        ensures
            final(self).cs == old(self).cs,
            final(self).position() == old(self).position() + 1,
            final(self).wf(),
    {
        proof {
            use_type_invariant(&*self);
        }
        if self.y == 7 {
            self.advance_x();
        } else {
            self.y += 1;
        }
    }
}

} // verus!
