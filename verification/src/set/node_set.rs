//! Sets of nodes.

use vstd::prelude::*;

use crate::bits::{
    bit8, bitmap_has, lemma_bit8_ext, lemma_bit8_zero, lemma_bitmap_clear, lemma_bitmap_set,
    lemma_bitmap_zero,
};
use crate::node::Node;
use core::marker::PhantomData;

verus! {

/// The members of `ids` from `from` up to 127, in ascending order.
pub open spec fn ids_from(ids: Set<int>, from: int) -> Seq<int>
    decreases 128 - from,
{
    if from >= 128 {
        Seq::empty()
    } else if ids.contains(from) {
        seq![from] + ids_from(ids, from + 1)
    } else {
        ids_from(ids, from + 1)
    }
}

/// `ids_from` lists members of the set, and each member from `from` up to
/// 127 is listed.
pub proof fn lemma_ids_from(ids: Set<int>, from: int)
    requires
        0 <= from,
    ensures
        forall|i: int|
            0 <= i < ids_from(ids, from).len() ==> ids.contains(#[trigger] ids_from(ids, from)[i])
                && from <= ids_from(ids, from)[i] < 128,
        forall|id: int| from <= id < 128 && ids.contains(id) ==> ids_from(ids, from).contains(id),
    decreases 128 - from,
{
    if from < 128 {
        lemma_ids_from(ids, from + 1);
        let rest = ids_from(ids, from + 1);
        let list = ids_from(ids, from);
        assert forall|i: int| 0 <= i < list.len() implies ids.contains(#[trigger] list[i]) && from
            <= list[i] < 128 by {
            if ids.contains(from) {
                if i > 0 {
                    assert(list[i] == rest[i - 1]);
                }
            } else {
                assert(list[i] == rest[i]);
            }
        }
        assert forall|id: int| from <= id < 128 && ids.contains(id) implies list.contains(id) by {
            if id == from {
                assert(list[0] == id);
            } else {
                let j = choose|j: int| 0 <= j < rest.len() && rest[j] == id;
                if ids.contains(from) {
                    assert(list[j + 1] == id);
                } else {
                    assert(list[j] == id);
                }
            }
        }
    }
}

/// A set of nodes, kept as a bitmap with one bit for each of the 128
/// identifiers that a node can have.
#[derive(PartialEq, Eq, Debug)]
pub struct NodeSet<N: Node>(pub(crate) [u8; 16], pub(crate) PhantomData<N>);

impl<N: Node> NodeSet<N> {
    /// Every identifier in the set is that of a node.
    #[verifier::type_invariant]
    pub open(crate) spec fn wf(self) -> bool {
        forall|id: int| bitmap_has(self.0@, id) ==> N::valid_id(id as u8)
    }

    /// The identifiers of the nodes in the set, all of them below 128.
    pub open(crate) spec fn ids(&self) -> Set<int> {
        Set::new(|id: int| bitmap_has(self.0@, id))
    }

    /// The nodes in the set.
    pub open spec fn view(&self) -> Set<N> {
        Set::new(|node: N| self.ids().contains(node.spec_id() as int))
    }

    /// The identifiers in the set that are below `bound`.
    pub open spec fn ids_below(&self, bound: int) -> Set<int> {
        Set::new(|id: int| self.ids().contains(id) && id < bound)
    }

    /// Number of nodes in this set.
    pub fn len(&self) -> (r: usize)
        ensures
            self.ids().finite(),
            r == self.ids().len(),
            r <= 128,
    {
        let mut count: usize = 0;
        let mut id: usize = 0;
        proof {
            assert(self.ids_below(0) =~= Set::<int>::empty());
        }
        while id < 128
            invariant
                id <= 128,
                count <= id,
                self.ids_below(id as int).finite(),
                count == self.ids_below(id as int).len(),
            decreases 128 - id,
        {
            if self.has_id(id) {
                proof {
                    assert(self.ids_below(id + 1) =~= self.ids_below(id as int).insert(id as int));
                }
                count += 1;
            } else {
                proof {
                    assert(self.ids_below(id + 1) =~= self.ids_below(id as int));
                }
            }
            id += 1;
        }
        proof {
            assert(self.ids_below(128) =~= self.ids());
        }
        count
    }

    /// Is the set without nodes?
    pub fn is_empty(&self) -> (r: bool)
        ensures
            r == (self.ids() == Set::<int>::empty()),
    {
        let mut i: usize = 0;
        while i < 16
            invariant
                i <= 16,
                forall|k: int| 0 <= k < i ==> self.0@[k] == 0,
            decreases 16 - i,
        {
            if self.0[i] != 0 {
                proof {
                    let byte = self.0@[i as int];
                    if forall|j: int| 0 <= j < 8 ==> !bit8(byte, j) {
                        assert forall|j: int| 0 <= j < 8 implies bit8(byte, j) == bit8(0, j) by {
                            lemma_bit8_zero(j);
                        }
                        lemma_bit8_ext(byte, 0);
                    }
                    let j = choose|j: int| 0 <= j < 8 && bit8(byte, j);
                    let id = 8 * i + j;
                    assert(id / 8 == i && id % 8 == j);
                    assert(self.ids().contains(id));
                }
                return false;
            }
            i += 1;
        }
        proof {
            assert forall|id: int| !self.ids().contains(id) by {
                lemma_bitmap_zero(self.0@, id);
            }
            assert(self.ids() =~= Set::<int>::empty());
        }
        true
    }

    /// Does this set contain the given node?
    pub fn contains(&self, node: N) -> (r: bool)
        ensures
            r == self@.contains(node),
            r == self.ids().contains(node.spec_id() as int),
    {
        let (i, j) = Self::address(node);
        (self.0[i] >> j) & 1 == 1
    }

    /// Inserts the given node.
    pub fn insert(&mut self, node: N)
        ensures
            final(self).ids() == old(self).ids().insert(node.spec_id() as int),
            final(self)@ == old(self)@.insert(node),
    {
        let (i, j) = Self::address(node);
        let ghost id = node.spec_id() as int;
        let mut bits = self.0;
        bits[i] = bits[i] | (1u8 << j);
        proof {
            use_type_invariant(&*self);
            assert forall|k: int| bitmap_has(bits@, k) == (k == id || bitmap_has(self.0@, k)) by {
                lemma_bitmap_set(self.0@, id, k);
            }
        }
        self.0 = bits;
        proof {
            assert(final(self).ids() =~= old(self).ids().insert(id));
            assert forall|n: N| final(self)@.contains(n) == old(self)@.insert(node).contains(n) by {
                if n.spec_id() == node.spec_id() {
                    N::lemma_id_injective(n, node);
                }
            }
            assert(final(self)@ =~= old(self)@.insert(node));
        }
    }

    /// Removes the given node.
    pub fn remove(&mut self, node: N)
        ensures
            final(self).ids() == old(self).ids().remove(node.spec_id() as int),
            final(self)@ == old(self)@.remove(node),
    {
        let (i, j) = Self::address(node);
        let ghost id = node.spec_id() as int;
        let mut bits = self.0;
        bits[i] = bits[i] & !(1u8 << j);
        proof {
            use_type_invariant(&*self);
            assert forall|k: int| bitmap_has(bits@, k) == (k != id && bitmap_has(self.0@, k)) by {
                lemma_bitmap_clear(self.0@, id, k);
            }
        }
        self.0 = bits;
        proof {
            assert(final(self).ids() =~= old(self).ids().remove(id));
            assert forall|n: N| final(self)@.contains(n) == old(self)@.remove(node).contains(n) by {
                if n.spec_id() == node.spec_id() {
                    N::lemma_id_injective(n, node);
                }
            }
            assert(final(self)@ =~= old(self)@.remove(node));
        }
    }

    /// The nodes in this set, by ascending identifier.
    pub fn iter(&self) -> (r: Vec<N>)
        ensures
            r@.map_values(|node: N| node.spec_id() as int) == ids_from(self.ids(), 0),
            forall|i: int| 0 <= i < r@.len() ==> self@.contains(#[trigger] r@[i]),
    {
        let ghost id_of = |node: N| node.spec_id() as int;
        let mut nodes: Vec<N> = Vec::new();
        let mut id: usize = 0;
        proof {
            assert(nodes@.map_values(id_of) =~= Seq::<int>::empty());
        }
        while id < 128
            invariant
                id <= 128,
                id_of == (|node: N| node.spec_id() as int),
                nodes@.map_values(id_of) + ids_from(self.ids(), id as int) == ids_from(
                    self.ids(),
                    0,
                ),
                forall|i: int| 0 <= i < nodes@.len() ==> self@.contains(#[trigger] nodes@[i]),
            decreases 128 - id,
        {
            if self.has_id(id) {
                proof {
                    use_type_invariant(self);
                }
                let node = N::from_id(id as u8);
                proof {
                    assert(nodes@.push(node).map_values(id_of) =~= nodes@.map_values(id_of).push(
                        id as int,
                    ));
                    assert(nodes@.map_values(id_of).push(id as int) + ids_from(self.ids(), id + 1)
                        =~= nodes@.map_values(id_of) + ids_from(self.ids(), id as int));
                }
                nodes.push(node);
            }
            id += 1;
        }
        proof {
            assert(nodes@.map_values(id_of) + ids_from(self.ids(), 128) =~= nodes@.map_values(
                id_of,
            ));
        }
        nodes
    }

    /// Removes all nodes from `self`, and returns what the set was before.
    pub fn take(&mut self) -> (r: Self)
        ensures
            r.ids() == old(self).ids(),
            r@ == old(self)@,
            final(self).ids() == Set::<int>::empty(),
            final(self)@ == Set::<N>::empty(),
    {
        proof {
            use_type_invariant(&*self);
        }
        let copy = NodeSet(self.0, PhantomData);
        let cleared = [0u8; 16];
        proof {
            assert forall|id: int| !bitmap_has(cleared@, id) by {
                lemma_bitmap_zero(cleared@, id);
            }
        }
        self.0 = cleared;
        proof {
            assert(final(self).ids() =~= Set::<int>::empty());
            assert(final(self)@ =~= Set::<N>::empty());
        }
        copy
    }

    /// The set of the given nodes.
    pub fn from_slice(nodes: &[N]) -> (r: Self)
        ensures
            r@ == nodes@.to_set(),
            r.ids() == nodes@.map_values(|node: N| node.spec_id() as int).to_set(),
    {
        let ghost id_of = |node: N| node.spec_id() as int;
        let mut set = Self::default();
        let mut i: usize = 0;
        proof {
            assert(nodes@.take(0) =~= Seq::<N>::empty());
            assert(set@ =~= nodes@.take(0).to_set());
            assert(set.ids() =~= nodes@.take(0).map_values(id_of).to_set());
        }
        while i < nodes.len()
            invariant
                i <= nodes@.len(),
                id_of == (|node: N| node.spec_id() as int),
                set@ == nodes@.take(i as int).to_set(),
                set.ids() == nodes@.take(i as int).map_values(id_of).to_set(),
            decreases nodes@.len() - i,
        {
            let node = nodes[i];
            set.insert(node);
            proof {
                let before = nodes@.take(i as int);
                let after = nodes@.take(i + 1);
                assert(after =~= before.push(node));
                assert(after.map_values(id_of) =~= before.map_values(id_of).push(id_of(node)));
                assert forall|n: N| after.to_set().contains(n) == before.to_set().insert(
                    node,
                ).contains(n) by {
                    if before.contains(n) {
                        let k = choose|k: int| 0 <= k < before.len() && before[k] == n;
                        assert(after[k] == n);
                    }
                    if after.contains(n) {
                        let k = choose|k: int| 0 <= k < after.len() && after[k] == n;
                        if k < i {
                            assert(before[k] == n);
                        }
                    }
                    assert(after[i as int] == node);
                }
                assert(after.to_set() =~= before.to_set().insert(node));
                let ids_before = before.map_values(id_of);
                let ids_after = after.map_values(id_of);
                assert forall|id: int| ids_after.to_set().contains(id) == ids_before.to_set().insert(
                    id_of(node),
                ).contains(id) by {
                    if ids_before.contains(id) {
                        let k = choose|k: int| 0 <= k < ids_before.len() && ids_before[k] == id;
                        assert(ids_after[k] == id);
                    }
                    if ids_after.contains(id) {
                        let k = choose|k: int| 0 <= k < ids_after.len() && ids_after[k] == id;
                        if k < i {
                            assert(ids_before[k] == id);
                        }
                    }
                    assert(ids_after[i as int] == id_of(node));
                }
                assert(ids_after.to_set() =~= ids_before.to_set().insert(id_of(node)));
            }
            i += 1;
        }
        proof {
            assert(nodes@.take(nodes@.len() as int) =~= nodes@);
        }
        set
    }

    /// Byte and bit at which the given node is kept.
    fn address(node: N) -> (r: (usize, u8))
        ensures
            r.0 < 16,
            r.1 < 8,
            r.0 == node.spec_id() / 8,
            r.1 == node.spec_id() % 8,
            node.spec_id() <= 127,
            N::valid_id(node.spec_id()),
    {
        let value = node.id() as usize;
        (value / 8, (value % 8) as u8)
    }

    /// Is the given identifier in the set?
    fn has_id(&self, id: usize) -> (r: bool)
        requires
            id < 128,
        ensures
            r == self.ids().contains(id as int),
    {
        (self.0[id / 8] >> ((id % 8) as u8)) & 1 == 1
    }
}

impl<N: Node> Default for NodeSet<N> {
    /// The empty set.
    fn default() -> (r: Self)
        ensures
            r.ids() == Set::<int>::empty(),
            r@ == Set::<N>::empty(),
    {
        let bits = [0u8; 16];
        proof {
            assert forall|id: int| !bitmap_has(bits@, id) by {
                lemma_bitmap_zero(bits@, id);
            }
        }
        let r = Self(bits, PhantomData);
        proof {
            assert(r.ids() =~= Set::<int>::empty());
            assert(r@ =~= Set::<N>::empty());
        }
        r
    }
}

} // verus!
