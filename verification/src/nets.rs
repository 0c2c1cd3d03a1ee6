//! The netlist that a user builds up by bridging nodes.

use vstd::prelude::*;

use crate::net::Net;
use crate::net_id::NetId;
use crate::node::Node;
use crate::search::{first_index, lemma_first_index_is, lemma_first_index_none, lemma_take_to_set};
use crate::text::{same_bytes, same_text};

verus! {

/// How many nets a netlist can hold.
pub const MAX_NETS: usize = 64;

/// A color, by its red, green and blue parts.
#[derive(Copy, Clone, PartialEq, Eq, Structural, Debug)]
pub struct Rgb(pub u8, pub u8, pub u8);

/// Why a node could not be added to a net.
#[derive(Copy, Clone, PartialEq, Eq, Structural, Debug)]
pub enum AddNodeError {
    /// The node belongs to the given net already.
    NodeAlreadyAssigned(NetId),
}

/// The position of the supply switch.
///
/// The position cannot be detected: the user has to tell it. It only
/// affects the color in which the rails are shown.
#[allow(non_camel_case_types)]
#[derive(Copy, Clone, PartialEq, Eq, Structural, Debug)]
pub enum SupplySwitchPos {
    _3V3,
    _5V,
    _8V,
}

impl SupplySwitchPos {
    /// The label of the position.
    pub open spec fn spec_label(&self) -> Seq<char> {
        match self {
            SupplySwitchPos::_3V3 => "3V3"@,
            SupplySwitchPos::_5V => "5V"@,
            SupplySwitchPos::_8V => "8V"@,
        }
    }

    /// The bytes of the label of the position.
    pub open spec fn label_bytes(&self) -> Seq<u8> {
        vstd::utf8::encode_utf8(self.spec_label())
    }

    /// The position with the given label.
    pub fn parse(input: &str) -> (r: Option<Self>)
        ensures
            match r {
                Some(position) => position.spec_label() == input@,
                None => forall|position: SupplySwitchPos| #[trigger]
                    position.spec_label() != input@,
            },
    {
        if same_text(input, SupplySwitchPos::_3V3.label()) {
            Some(SupplySwitchPos::_3V3)
        } else if same_text(input, SupplySwitchPos::_5V.label()) {
            Some(SupplySwitchPos::_5V)
        } else if same_text(input, SupplySwitchPos::_8V.label()) {
            Some(SupplySwitchPos::_8V)
        } else {
            None
        }
    }

    /// The position with the label that the bytes spell.
    pub fn parse_bytes(input: &[u8]) -> (r: Option<Self>)
        ensures
            match r {
                Some(position) => position.label_bytes() == input@,
                None => forall|position: SupplySwitchPos| #[trigger]
                    position.label_bytes() != input@,
            },
    {
        if same_bytes(input, SupplySwitchPos::_3V3.label().as_bytes()) {
            Some(SupplySwitchPos::_3V3)
        } else if same_bytes(input, SupplySwitchPos::_5V.label().as_bytes()) {
            Some(SupplySwitchPos::_5V)
        } else if same_bytes(input, SupplySwitchPos::_8V.label().as_bytes()) {
            Some(SupplySwitchPos::_8V)
        } else {
            None
        }
    }

    /// The label of the position.
    pub fn label(&self) -> (r: &'static str)
        ensures
            r@ == self.spec_label(),
    {
        match self {
            SupplySwitchPos::_3V3 => "3V3",
            SupplySwitchPos::_5V => "5V",
            SupplySwitchPos::_8V => "8V",
        }
    }
}

/// Says of a position whether the net there holds the node with the given
/// identifier.
pub open spec fn holds_node_at<N: Node>(nets: Seq<Net<N>>, id: int) -> spec_fn(int) -> bool {
    |i: int| nets[i].nodes.ids().contains(id)
}

/// The position of the first net that holds the node with the given
/// identifier.
pub open spec fn net_with_node<N: Node>(nets: Seq<Net<N>>, id: int) -> Option<int> {
    first_index(0, nets.len() as int, holds_node_at(nets, id))
}

/// The nets of the board, each with the color in which it is shown.
pub struct Nets<N: Node> {
    pub(crate) supply_switch_pos: SupplySwitchPos,
    pub(crate) nets: Vec<Net<N>>,
    pub(crate) colors: Vec<Rgb>,
}

impl<N: Node> Nets<N> {
    /// There are at most `MAX_NETS` nets, each with a color, and the
    /// identifier of a net is its position plus one.
    #[verifier::type_invariant]
    pub open(crate) spec fn wf(self) -> bool {
        &&& self.nets@.len() == self.colors@.len()
        &&& self.nets@.len() <= MAX_NETS
        &&& forall|i: int| 0 <= i < self.nets@.len() ==> (#[trigger] self.nets@[i]).id.spec_index() == i
    }

    /// The nets, in the order of their identifiers.
    pub open(crate) spec fn spec_nets(&self) -> Seq<Net<N>> {
        self.nets@
    }

    /// The colors of the nets, in the order of the nets.
    pub open(crate) spec fn spec_colors(&self) -> Seq<Rgb> {
        self.colors@
    }

    /// The position of the supply switch.
    pub open(crate) spec fn spec_supply_switch_pos(&self) -> SupplySwitchPos {
        self.supply_switch_pos
    }

    /// How many nets there are.
    pub open spec fn count(&self) -> int {
        self.spec_nets().len() as int
    }

    /// The identifier of the net at the given position.
    pub open spec fn id_at(&self, i: int) -> NetId {
        self.spec_nets()[i].id
    }

    /// The identifiers of the nodes of the net at the given position.
    pub open spec fn ids_at(&self, i: int) -> Set<int> {
        self.spec_nets()[i].nodes.ids()
    }

    /// The other netlist has the same nets, but for the nodes they hold,
    /// and the same colors and switch position.
    pub open spec fn same_frame(&self, other: &Self) -> bool {
        &&& self.spec_colors() == other.spec_colors()
        &&& self.spec_supply_switch_pos() == other.spec_supply_switch_pos()
        &&& self.count() == other.count()
        &&& forall|i: int| 0 <= i < self.count() ==> #[trigger] self.id_at(i) == other.id_at(i)
    }

    /// A netlist without nets, with the supply switch at 5V.
    pub fn new() -> (r: Self)
        ensures
            r.spec_nets() == Seq::<Net<N>>::empty(),
            r.spec_colors() == Seq::<Rgb>::empty(),
            r.spec_supply_switch_pos() == SupplySwitchPos::_5V,
    {
        Self { supply_switch_pos: SupplySwitchPos::_5V, nets: Vec::new(), colors: Vec::new() }
    }

    /// The nets, in the order of their identifiers.
    pub fn nets(&self) -> (r: &[Net<N>])
        ensures
            r@ == self.spec_nets(),
            r@.len() <= MAX_NETS,
            forall|i: int| 0 <= i < r@.len() ==> (#[trigger] r@[i]).id.spec_index() == i,
    {
        proof {
            use_type_invariant(self);
        }
        self.nets.as_slice()
    }

    /// The position of the supply switch.
    pub fn supply_switch_pos(&self) -> (r: SupplySwitchPos)
        ensures
            r == self.spec_supply_switch_pos(),
    {
        self.supply_switch_pos
    }

    /// Notes the position of the supply switch.
    pub fn set_supply_switch_pos(&mut self, position: SupplySwitchPos)
        ensures
            final(self).spec_supply_switch_pos() == position,
            final(self).spec_nets() == old(self).spec_nets(),
            final(self).spec_colors() == old(self).spec_colors(),
    {
        proof {
            use_type_invariant(&*self);
        }
        self.supply_switch_pos = position;
    }

    /// Adds the node to the net, unless it belongs to a net already, be it
    /// this net or another.
    pub fn add_node(&mut self, net_id: NetId, node: N) -> (r: Result<(), AddNodeError>)
        requires
            net_id.spec_index() < old(self).count(),
        ensures
            final(self).same_frame(old(self)),
            match net_with_node(old(self).spec_nets(), node.spec_id() as int) {
                Some(i) => r == Err::<(), AddNodeError>(
                    AddNodeError::NodeAlreadyAssigned(old(self).id_at(i)),
                ) && final(self).spec_nets() == old(self).spec_nets(),
                None => r is Ok && forall|i: int|
                    0 <= i < old(self).count() ==> #[trigger] final(self).ids_at(i) == if i
                        == net_id.spec_index() {
                        old(self).ids_at(i).insert(node.spec_id() as int)
                    } else {
                        old(self).ids_at(i)
                    },
            },
    {
        match self.with_node(node) {
            Some(holder) => {
                return Err(AddNodeError::NodeAlreadyAssigned(holder));
            },
            None => {},
        }
        let mut taken = Nets::new();
        proof {
            use_type_invariant(&*self);
        }
        core::mem::swap(self, &mut taken);
        let Nets { supply_switch_pos, mut nets, colors } = taken;
        let ghost before = nets@;
        nets[net_id.index()].nodes.insert(node);
        proof {
            assert forall|i: int| 0 <= i < nets@.len() implies (#[trigger] nets@[i]).id.spec_index()
                == i by {
                assert(before[i].id.spec_index() == i);
            }
        }
        *self = Nets { supply_switch_pos, nets, colors };
        Ok(())
    }

    /// Removes the node from the net.
    pub fn remove_node(&mut self, net_id: NetId, node: N)
        requires
            net_id.spec_index() < old(self).count(),
        ensures
            final(self).same_frame(old(self)),
            forall|i: int|
                0 <= i < old(self).count() ==> #[trigger] final(self).ids_at(i) == if i
                    == net_id.spec_index() {
                    old(self).ids_at(i).remove(node.spec_id() as int)
                } else {
                    old(self).ids_at(i)
                },
    {
        let mut taken = Nets::new();
        proof {
            use_type_invariant(&*self);
        }
        core::mem::swap(self, &mut taken);
        let Nets { supply_switch_pos, mut nets, colors } = taken;
        let ghost before = nets@;
        nets[net_id.index()].nodes.remove(node);
        proof {
            assert forall|i: int| 0 <= i < nets@.len() implies (#[trigger] nets@[i]).id.spec_index()
                == i by {
                assert(before[i].id.spec_index() == i);
            }
        }
        *self = Nets { supply_switch_pos, nets, colors };
    }

    /// Adds a net without nodes, of the given color, and returns its
    /// identifier.
    pub fn new_net(&mut self, color: Rgb) -> (r: NetId)
        requires
            old(self).count() < MAX_NETS,
        ensures
            r.spec_index() == old(self).count(),
            final(self).spec_supply_switch_pos() == old(self).spec_supply_switch_pos(),
            final(self).spec_colors() == old(self).spec_colors().push(color),
            final(self).count() == old(self).count() + 1,
            forall|i: int|
                0 <= i < old(self).count() ==> #[trigger] final(self).spec_nets()[i] == old(
                    self,
                ).spec_nets()[i],
            final(self).id_at(old(self).count()) == r,
            final(self).ids_at(old(self).count()) == Set::<int>::empty(),
    {
        let mut taken = Nets::new();
        proof {
            use_type_invariant(&*self);
        }
        core::mem::swap(self, &mut taken);
        let Nets { supply_switch_pos, mut nets, mut colors } = taken;
        let ghost before = nets@;
        let net_id = NetId::from_index(nets.len());
        nets.push(Net::new(net_id));
        colors.push(color);
        proof {
            assert forall|i: int| 0 <= i < nets@.len() implies (#[trigger] nets@[i]).id.spec_index()
                == i by {
                if i < before.len() {
                    assert(before[i].id.spec_index() == i);
                }
            }
        }
        *self = Nets { supply_switch_pos, nets, colors };
        net_id
    }

    /// The net that the node belongs to: the first that holds it.
    pub fn with_node(&self, node: N) -> (r: Option<NetId>)
        ensures
            match net_with_node(self.spec_nets(), node.spec_id() as int) {
                Some(i) => r == Some(self.spec_nets()[i].id) && 0 <= i < self.spec_nets().len(),
                None => r is None,
            },
    {
        let ghost found = holds_node_at(self.spec_nets(), node.spec_id() as int);
        let mut i: usize = 0;
        while i < self.nets.len()
            invariant
                i <= self.nets@.len(),
                found == holds_node_at(self.spec_nets(), node.spec_id() as int),
                forall|j: int| 0 <= j < i ==> !#[trigger] found(j),
            decreases self.nets@.len() - i,
        {
            if self.nets[i].nodes.contains(node) {
                proof {
                    lemma_first_index_is(0, self.nets@.len() as int, found, i as int);
                }
                return Some(self.nets[i].id);
            }
            i += 1;
        }
        proof {
            lemma_first_index_none(0, self.nets@.len() as int, found);
        }
        None
    }

    /// Moves the nodes of the net `src` to the net `dest`.
    pub fn merge(&mut self, dest: NetId, src: NetId)
        requires
            dest.spec_index() < old(self).count(),
            src.spec_index() < old(self).count(),
        ensures
            final(self).same_frame(old(self)),
            forall|i: int|
                0 <= i < old(self).count() ==> #[trigger] final(self).ids_at(i) == if i
                    == dest.spec_index() {
                    old(self).ids_at(i).union(old(self).ids_at(src.spec_index()))
                } else if i == src.spec_index() {
                    Set::<int>::empty()
                } else {
                    old(self).ids_at(i)
                },
    {
        let mut taken = Nets::new();
        proof {
            use_type_invariant(&*self);
        }
        core::mem::swap(self, &mut taken);
        let Nets { supply_switch_pos, mut nets, colors } = taken;
        let ghost before = nets@;
        let src_nodes = nets[src.index()].nodes.take();
        let moved = src_nodes.iter();
        let ghost emptied = nets@;
        let ghost source = before[src.spec_index()].nodes.ids();
        let ghost ids = crate::set::node_set::ids_from(source, 0);
        let ghost start = emptied[dest.spec_index()].nodes.ids();
        proof {
            use_type_invariant(dest);
            use_type_invariant(src);
            assert(before.len() == old(self).count());
            assert(emptied.len() == before.len());
            assert(emptied[src.spec_index()].nodes.ids() == Set::<int>::empty());
            assert(forall|i: int|
                0 <= i < before.len() && i != src.spec_index() ==> #[trigger] emptied[i]
                    == before[i]);
            assert(forall|i: int| 0 <= i < before.len() ==> (#[trigger] emptied[i]).id == before[i].id);
            assert(ids.take(0).to_set() =~= Set::<int>::empty());
            assert(start.union(ids.take(0).to_set()) =~= start);
        }
        let mut k: usize = 0;
        while k < moved.len()
            invariant
                k <= moved@.len(),
                dest.spec_index() < nets@.len(),
                nets@.len() == emptied.len(),
                ids == crate::set::node_set::ids_from(source, 0),
                moved@.map_values(|node: N| node.spec_id() as int) == ids,
                emptied.len() == before.len(),
                0 <= src.spec_index() < before.len(),
                0 <= dest.spec_index(),
                source == before[src.spec_index()].nodes.ids(),
                emptied[src.spec_index()].nodes.ids() == Set::<int>::empty(),
                forall|i: int|
                    0 <= i < before.len() && i != src.spec_index() ==> #[trigger] emptied[i]
                        == before[i],
                forall|i: int| 0 <= i < before.len() ==> (#[trigger] emptied[i]).id == before[i].id,
                forall|i: int| 0 <= i < before.len() ==> (#[trigger] before[i]).id.spec_index() == i,
                start == emptied[dest.spec_index()].nodes.ids(),
                forall|i: int|
                    0 <= i < nets@.len() ==> (#[trigger] nets@[i]).id == emptied[i].id && (i
                        != dest.spec_index() ==> nets@[i].nodes.ids() == emptied[i].nodes.ids()),
                nets@[dest.spec_index()].nodes.ids() == start.union(ids.take(k as int).to_set()),
            decreases moved@.len() - k,
        {
            let node = moved[k];
            proof {
                assert(ids[k as int] == node.spec_id() as int);
                assert(ids.len() == moved@.len());
                lemma_take_to_set(ids, k as int);
            }
            nets[dest.index()].nodes.insert(node);
            proof {
                assert(nets@[dest.spec_index()].nodes.ids() =~= start.union(
                    ids.take(k + 1).to_set(),
                ));
            }
            k += 1;
        }
        proof {
            assert(moved@.len() == ids.len());
            assert(ids.take(ids.len() as int) =~= ids);
            crate::set::node_set::lemma_ids_from(source, 0);
            assert forall|id: int| ids.to_set().contains(id) == source.contains(id) by {
                if source.contains(id) {
                    assert(0 <= id < 128);
                }
            }
            assert(ids.to_set() =~= source);
            assert forall|i: int| 0 <= i < nets@.len() implies (#[trigger] nets@[i]).id.spec_index()
                == i by {
                assert(before[i].id.spec_index() == i);
            }
            assert(start.union(source) =~= before[dest.spec_index()].nodes.ids().union(source));
        }
        *self = Nets { supply_switch_pos, nets, colors };
    }

    /// The color in which the net is shown.
    pub fn color(&self, net_id: NetId) -> (r: Rgb)
        requires
            net_id.spec_index() < self.count(),
        ensures
            r == self.spec_colors()[net_id.spec_index()],
    {
        proof {
            use_type_invariant(self);
        }
        self.colors[net_id.index()]
    }

    /// Adds a net of the given nodes and color, if there is room for it.
    pub fn add_net(&mut self, nodes: &[N], color: Rgb)
        ensures
            final(self).spec_supply_switch_pos() == old(self).spec_supply_switch_pos(),
            old(self).count() >= MAX_NETS ==> final(self).spec_nets() == old(self).spec_nets()
                && final(self).spec_colors() == old(self).spec_colors(),
            old(self).count() < MAX_NETS ==> {
                &&& final(self).spec_colors() == old(self).spec_colors().push(color)
                &&& final(self).count() == old(self).count() + 1
                &&& forall|i: int|
                    0 <= i < old(self).count() ==> #[trigger] final(self).spec_nets()[i] == old(
                        self,
                    ).spec_nets()[i]
                &&& final(self).id_at(old(self).count()).spec_index() == old(self).count()
                &&& final(self).spec_nets()[old(self).count()].nodes@ == nodes@.to_set()
            },
    {
        let mut taken = Nets::new();
        proof {
            use_type_invariant(&*self);
        }
        core::mem::swap(self, &mut taken);
        let Nets { supply_switch_pos, mut nets, mut colors } = taken;
        let ghost before = nets@;
        if nets.len() < MAX_NETS {
            let net_id = NetId::from_index(nets.len());
            nets.push(Net::from_iter(net_id, nodes));
            colors.push(color);
        }
        proof {
            assert forall|i: int| 0 <= i < nets@.len() implies (#[trigger] nets@[i]).id.spec_index()
                == i by {
                if i < before.len() {
                    assert(before[i].id.spec_index() == i);
                }
            }
        }
        *self = Nets { supply_switch_pos, nets, colors };
    }
}

} // verus!
