//! Sets of edges.

use vstd::prelude::*;

use crate::bits::{bit32, lemma_bit24_nonzero, lemma_bit32_clear, lemma_bit32_set, lemma_bit32_zero};
use crate::chip_id::ChipId;
use crate::dimension::Dimension;
use crate::edge::Edge;

verus! {

/// The members of `edges` whose address is at least `from`, by ascending
/// address.
pub open spec fn edges_from(edges: Set<Edge>, from: int) -> Seq<Edge>
    decreases 24 - from,
{
    if from >= 24 {
        Seq::empty()
    } else if edges.contains(Edge::from_address(from)) {
        seq![Edge::from_address(from)] + edges_from(edges, from + 1)
    } else {
        edges_from(edges, from + 1)
    }
}

/// The members of `edges`, by ascending address.
pub open spec fn edges_in_order(edges: Set<Edge>) -> Seq<Edge> {
    edges_from(edges, 0)
}

/// The member of `edges` with the lowest address of those that are at
/// least `from`.
pub open spec fn first_edge_from(edges: Set<Edge>, from: int) -> Option<Edge>
    decreases 24 - from,
{
    if from >= 24 {
        None
    } else if edges.contains(Edge::from_address(from)) {
        Some(Edge::from_address(from))
    } else {
        first_edge_from(edges, from + 1)
    }
}

/// The member of `edges` with the lowest address.
pub open spec fn first_edge(edges: Set<Edge>) -> Option<Edge> {
    first_edge_from(edges, 0)
}

/// What `first_edge_from` finds is the member with the lowest address, and
/// it finds nothing only where there is no member.
pub proof fn lemma_first_edge_from(edges: Set<Edge>, from: int)
    requires
        0 <= from,
    ensures
        match first_edge_from(edges, from) {
            Some(edge) => edge.wf() && edges.contains(edge) && from <= edge.address() < 24
                && forall|a: int| from <= a < edge.address() ==> !edges.contains(Edge::from_address(a)),
            None => forall|a: int| from <= a < 24 ==> !edges.contains(Edge::from_address(a)),
        },
    decreases 24 - from,
{
    if from < 24 {
        Edge::lemma_from_address(from);
        if !edges.contains(Edge::from_address(from)) {
            lemma_first_edge_from(edges, from + 1);
        }
    }
}

/// What `edges_from` lists are members of the set.
pub proof fn lemma_edges_from(edges: Set<Edge>, from: int)
    requires
        0 <= from,
    ensures
        forall|i: int|
            0 <= i < edges_from(edges, from).len() ==> edges.contains(
                #[trigger] edges_from(edges, from)[i],
            ),
    decreases 24 - from,
{
    if from < 24 {
        lemma_edges_from(edges, from + 1);
        let rest = edges_from(edges, from + 1);
        assert forall|i: int| 0 <= i < edges_from(edges, from).len() implies edges.contains(
            #[trigger] edges_from(edges, from)[i],
        ) by {
            if edges.contains(Edge::from_address(from)) {
                if i > 0 {
                    assert(edges_from(edges, from)[i] == rest[i - 1]);
                }
            } else {
                assert(edges_from(edges, from)[i] == rest[i]);
            }
        }
    }
}

/// A set of edges, kept as a bitmap with one bit for each of the 24 edges.
pub struct EdgeSet(pub(crate) u32);

impl EdgeSet {
    /// No bit is set but those of the 24 edges.
    #[verifier::type_invariant]
    pub open(crate) spec fn wf(self) -> bool {
        self.0 >> 24u32 == 0
    }

    /// The edges in the set: those whose bit, at the edge's address, is set.
    pub open(crate) spec fn view(&self) -> Set<Edge> {
        Set::new(|edge: Edge| edge.wf() && bit32(self.0, edge.address()))
    }

    /// The members with an address below `bound`.
    pub open spec fn below(&self, bound: int) -> Set<Edge> {
        Set::new(|edge: Edge| self@.contains(edge) && edge.address() < bound)
    }

    /// A set without edges.
    pub fn empty() -> (r: Self)
        ensures
            r@ == Set::<Edge>::empty(),
    {
        assert(0u32 >> 24u32 == 0) by (bit_vector);
        let r = Self(0);
        proof {
            assert forall|edge: Edge| !r@.contains(edge) by {
                lemma_bit32_zero(edge.address());
            }
            assert(r@ =~= Set::<Edge>::empty());
        }
        r
    }

    /// Is the given edge in the set?
    pub fn contains(&self, edge: Edge) -> (r: bool)
        ensures
            r == self@.contains(edge),
    {
        (self.0 >> Self::address(edge)) & 1 == 1
    }

    /// Adds the given edge.
    pub fn insert(&mut self, edge: Edge)
        ensures
            final(self)@ == old(self)@.insert(edge),
    {
        let address = Self::address(edge);
        proof {
            use_type_invariant(&*self);
            let w = self.0;
            assert((w | (1u32 << address)) >> 24u32 == 0) by (bit_vector)
                requires
                    w >> 24u32 == 0,
                    address < 24,
            ;
        }
        self.0 = self.0 | (1u32 << address);
        proof {
            assert forall|e: Edge| final(self)@.contains(e) == old(self)@.insert(edge).contains(
                e,
            ) by {
                lemma_bit32_set(old(self).0, address, e.address());
                if e.wf() {
                    e.lemma_address();
                }
            }
            assert(final(self)@ =~= old(self)@.insert(edge));
        }
    }

    /// Removes the given edge.
    pub fn remove(&mut self, edge: Edge)
        ensures
            final(self)@ == old(self)@.remove(edge),
    {
        let address = Self::address(edge);
        proof {
            use_type_invariant(&*self);
            let w = self.0;
            assert((w & !(1u32 << address)) >> 24u32 == 0) by (bit_vector)
                requires
                    w >> 24u32 == 0,
                    address < 24,
            ;
        }
        self.0 = self.0 & !(1u32 << address);
        proof {
            assert forall|e: Edge| final(self)@.contains(e) == old(self)@.remove(edge).contains(
                e,
            ) by {
                lemma_bit32_clear(old(self).0, address, e.address());
                if e.wf() {
                    e.lemma_address();
                }
            }
            assert(final(self)@ =~= old(self)@.remove(edge));
        }
    }

    /// The members of the set, by ascending address.
    pub fn iter(&self) -> (r: Vec<Edge>)
        ensures
            r@ == edges_in_order(self@),
    {
        let mut edges: Vec<Edge> = Vec::new();
        let mut address: usize = 0;
        while address < 24
            invariant
                address <= 24,
                edges@ + edges_from(self@, address as int) == edges_in_order(self@),
            decreases 24 - address,
        {
            let edge = Self::edge_from_address(address);
            if self.contains(edge) {
                proof {
                    assert((edges@.push(edge)) + edges_from(self@, address + 1) =~= edges@
                        + edges_from(self@, address as int));
                }
                edges.push(edge);
            }
            address += 1;
        }
        proof {
            assert(edges@ + edges_from(self@, 24) =~= edges@);
        }
        edges
    }

    /// The number of edges in the set.
    pub fn len(&self) -> (r: usize)
        ensures
            self@.finite(),
            r == self@.len(),
            r <= 24,
    {
        let mut count: usize = 0;
        let mut address: usize = 0;
        proof {
            assert(self.below(0) =~= Set::<Edge>::empty());
        }
        while address < 24
            invariant
                address <= 24,
                count <= address,
                self.below(address as int).finite(),
                count == self.below(address as int).len(),
            decreases 24 - address,
        {
            let edge = Self::edge_from_address(address);
            if self.contains(edge) {
                proof {
                    assert forall|e: Edge|
                        self.below(address + 1).contains(e) == self.below(address as int).insert(
                            edge,
                        ).contains(e) by {
                        if e.wf() {
                            e.lemma_address();
                        }
                    }
                    assert(self.below(address + 1) =~= self.below(address as int).insert(edge));
                }
                count += 1;
            } else {
                proof {
                    assert forall|e: Edge|
                        self.below(address + 1).contains(e) == self.below(
                            address as int,
                        ).contains(e) by {
                        if e.wf() {
                            e.lemma_address();
                        }
                    }
                    assert(self.below(address + 1) =~= self.below(address as int));
                }
            }
            address += 1;
        }
        proof {
            assert forall|e: Edge| self.below(24).contains(e) == self@.contains(e) by {
                if e.wf() {
                    e.lemma_address();
                }
            }
            assert(self.below(24) =~= self@);
        }
        count
    }

    /// Is the set without edges?
    pub fn is_empty(&self) -> (r: bool)
        ensures
            r == (self@ == Set::<Edge>::empty()),
    {
        proof {
            use_type_invariant(self);
            if self.0 == 0 {
                assert forall|edge: Edge| !self@.contains(edge) by {
                    lemma_bit32_zero(edge.address());
                }
                assert(self@ =~= Set::<Edge>::empty());
            } else {
                lemma_bit24_nonzero(self.0);
                let j = choose|j: int| 0 <= j < 24 && bit32(self.0, j);
                Edge::lemma_from_address(j);
                assert(self@.contains(Edge::from_address(j)));
            }
        }
        self.0 == 0
    }

    /// The member with the lowest address.
    pub fn first(&self) -> (r: Option<Edge>)
        ensures
            r == first_edge(self@),
            r is Some ==> self@.contains(r->0),
            r is None ==> self@ == Set::<Edge>::empty(),
    {
        let mut address: usize = 0;
        while address < 24
            invariant
                address <= 24,
                first_edge_from(self@, address as int) == first_edge(self@),
            decreases 24 - address,
        {
            let edge = Self::edge_from_address(address);
            if self.contains(edge) {
                return Some(edge);
            }
            address += 1;
        }
        proof {
            lemma_first_edge_from(self@, 0);
            assert forall|edge: Edge| !self@.contains(edge) by {
                if edge.wf() {
                    edge.lemma_address();
                }
            }
            assert(self@ =~= Set::<Edge>::empty());
        }
        None
    }

    /// Removes the member with the lowest address, and returns it.
    pub fn pop(&mut self) -> (r: Option<Edge>)
        ensures
            r == first_edge(old(self)@),
            r is Some ==> old(self)@.contains(r->0) && final(self)@ == old(self)@.remove(r->0),
            r is None ==> final(self)@ == old(self)@ && old(self)@ == Set::<Edge>::empty(),
    {
        match self.first() {
            Some(edge) => {
                self.remove(edge);
                Some(edge)
            },
            None => None,
        }
    }

    /// Bit at which the given edge is kept.
    fn address(edge: Edge) -> (r: u32)
        ensures
            r == edge.address(),
            r < 24,
            edge.wf(),
    {
        proof {
            use_type_invariant(edge);
        }
        (edge.chip_id().index() * 2 + edge.dimension().index()) as u32
    }

    /// The edge kept at the given bit.
    fn edge_from_address(address: usize) -> (r: Edge)
        requires
            address < 24,
        ensures
            r == Edge::from_address(address as int),
            r.wf(),
            r.address() == address,
    {
        let r = Edge::new(ChipId::from_index(address / 2), Dimension::from_index(address % 2));
        r
    }
}

} // verus!
