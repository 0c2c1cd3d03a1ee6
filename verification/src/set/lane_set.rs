//! The lanes of a board that are still available.

use vstd::prelude::*;

use crate::bits::{bitmap_has, lemma_bitmap_clear, lemma_bitmap_full};
use crate::lane::Lane;
use crate::search::{first_index, lemma_first_index};

verus! {

/// The predicate accepts the lane at `index`, which is still available,
/// and rejects every available lane before it.
pub open spec fn is_first_accepted<F: Fn(Lane) -> bool>(
    lanes: Seq<Lane>,
    available: Set<int>,
    predicate: F,
    index: int,
) -> bool {
    &&& 0 <= index < lanes.len()
    &&& available.contains(index)
    &&& predicate.ensures((lanes[index],), true)
    &&& forall|j: int|
        0 <= j < index && available.contains(j) ==> predicate.ensures((#[trigger] lanes[j],), false)
}

/// Says of an index whether the lane there is still available and one that
/// `wanted` picks.
pub open spec fn free_and_wanted(
    lanes: Seq<Lane>,
    available: Set<int>,
    wanted: spec_fn(Lane) -> bool,
) -> spec_fn(int) -> bool {
    |index: int| available.contains(index) && wanted(lanes[index])
}

/// The index of the first lane that is still available and that `wanted`
/// picks.
pub open spec fn first_free_lane(
    lanes: Seq<Lane>,
    available: Set<int>,
    wanted: spec_fn(Lane) -> bool,
) -> Option<int> {
    first_index(0, lanes.len() as int, free_and_wanted(lanes, available, wanted))
}

/// The first free lane is a lane of the list, still available, and one that
/// `wanted` picks.
pub proof fn lemma_first_free_lane(
    lanes: Seq<Lane>,
    available: Set<int>,
    wanted: spec_fn(Lane) -> bool,
)
    ensures
        first_free_lane(lanes, available, wanted) matches Some(index) ==> 0 <= index < lanes.len()
            && available.contains(index) && wanted(lanes[index]),
{
    lemma_first_index(0, lanes.len() as int, free_and_wanted(lanes, available, wanted));
}

/// The lanes that are still available, of those with an index of at least
/// `from`, in order.
pub open spec fn free_lanes_from(lanes: Seq<Lane>, available: Set<int>, from: int) -> Seq<Lane>
    decreases lanes.len() - from,
{
    if from >= lanes.len() {
        Seq::empty()
    } else if available.contains(from) {
        seq![lanes[from]] + free_lanes_from(lanes, available, from + 1)
    } else {
        free_lanes_from(lanes, available, from + 1)
    }
}

/// The lanes of a board, each of them marked as available or taken.
pub struct LaneSet<'a>(pub(crate) &'a [Lane], pub(crate) [u8; 16]);

impl<'a> LaneSet<'a> {
    /// There are at most 127 lanes.
    #[verifier::type_invariant]
    pub open(crate) spec fn wf(self) -> bool {
        self.0@.len() < 128
    }

    /// The lanes, in the order in which they were given.
    pub open(crate) spec fn lanes(&self) -> Seq<Lane> {
        self.0@
    }

    /// The indices that are marked as available, all of them below 128.
    pub open(crate) spec fn available(&self) -> Set<int> {
        Set::new(|index: int| bitmap_has(self.1@, index))
    }

    /// Constructs a new set holding the given lanes, all of them available.
    pub fn new(lanes: &'a [Lane]) -> (r: Self)
        requires
            lanes@.len() < 128,
        ensures
            r.lanes() == lanes@,
            r.available() == Set::new(|index: int| 0 <= index < 128),
    {
        let r = Self(lanes, [0xFF; 16]);
        proof {
            assert forall|index: int| 0 <= index < 128 implies r.available().contains(index) by {
                lemma_bitmap_full(r.1@, index);
            }
            assert(r.available() =~= Set::new(|index: int| 0 <= index < 128));
        }
        r
    }

    /// Removes the first available lane that matches the given predicate,
    /// and returns it.
    pub fn take<F: Fn(Lane) -> bool>(&mut self, predicate: F) -> (r: Option<Lane>)
        requires
            forall|lane: Lane| #[trigger] predicate.requires((lane,)),
        ensures
            final(self).lanes() == old(self).lanes(),
            match r {
                Some(lane) => exists|index: int|
                    is_first_accepted(old(self).lanes(), old(self).available(), predicate, index)
                        && lane == #[trigger] old(self).lanes()[index] && final(self).available()
                        == old(self).available().remove(index),
                None => final(self).available() == old(self).available() && forall|j: int|
                    0 <= j < old(self).lanes().len() && old(self).available().contains(j)
                        ==> predicate.ensures((#[trigger] old(self).lanes()[j],), false),
            },
    {
        let ghost lanes = self.lanes();
        let ghost available = self.available();
        let mut i: usize = 0;
        while i < self.0.len()
            invariant
                i <= self.0@.len(),
                *self == *old(self),
                lanes == self.lanes(),
                available == self.available(),
                forall|lane: Lane| #[trigger] predicate.requires((lane,)),
                forall|j: int|
                    0 <= j < i && available.contains(j) ==> predicate.ensures(
                        (#[trigger] lanes[j],),
                        false,
                    ),
            decreases self.0@.len() - i,
        {
            proof {
                use_type_invariant(&*self);
            }
            if self.has_index(i) {
                let lane = self.0[i];
                if predicate(lane) {
                    self.clear_index(i);
                    proof {
                        assert(is_first_accepted(lanes, available, predicate, i as int));
                        assert(lane == lanes[i as int]);
                    }
                    return Some(lane);
                }
            }
            i += 1;
        }
        None
    }

    /// Is the lane with the given index still available?
    pub fn has_index(&self, index: usize) -> (r: bool)
        requires
            index < 128,
        ensures
            r == self.available().contains(index as int),
    {
        let i = index / 8;
        let j = (index % 8) as u8;
        (self.1[i] >> j) & 1 == 1
    }

    /// Marks the lane with the given index as taken.
    pub fn clear_index(&mut self, index: usize)
        requires
            index < 128,
        ensures
            final(self).lanes() == old(self).lanes(),
            final(self).available() == old(self).available().remove(index as int),
    {
        let i = index / 8;
        let j = (index % 8) as u8;
        proof {
            use_type_invariant(&*self);
        }
        self.1[i] = self.1[i] & !(1u8 << j);
        proof {
            assert forall|k: int|
                final(self).available().contains(k) == old(self).available().remove(
                    index as int,
                ).contains(k) by {
                lemma_bitmap_clear(old(self).1@, index as int, k);
            }
            assert(final(self).available() =~= old(self).available().remove(index as int));
        }
    }

    /// The lanes that are still available, in order.
    pub fn iter(&self) -> (r: Vec<Lane>)
        ensures
            r@ == free_lanes_from(self.lanes(), self.available(), 0),
    {
        let mut lanes: Vec<Lane> = Vec::new();
        let mut i: usize = 0;
        while i < self.0.len()
            invariant
                i <= self.0@.len(),
                lanes@ + free_lanes_from(self.lanes(), self.available(), i as int)
                    == free_lanes_from(self.lanes(), self.available(), 0),
            decreases self.0@.len() - i,
        {
            proof {
                use_type_invariant(self);
            }
            if self.has_index(i) {
                proof {
                    assert(lanes@.push(self.lanes()[i as int]) + free_lanes_from(
                        self.lanes(),
                        self.available(),
                        i + 1,
                    ) =~= lanes@ + free_lanes_from(self.lanes(), self.available(), i as int));
                }
                lanes.push(self.0[i]);
            }
            i += 1;
        }
        proof {
            assert(lanes@ + free_lanes_from(self.lanes(), self.available(), i as int) =~= lanes@);
        }
        lanes
    }
}

} // verus!
