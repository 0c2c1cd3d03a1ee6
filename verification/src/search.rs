//! The first index, in a range, at which something holds.

use vstd::prelude::*;



verus! {

/// The least index `i` with `from <= i < to` for which `found(i)` holds.
pub open spec fn first_index(from: int, to: int, found: spec_fn(int) -> bool) -> Option<int>
    decreases to - from,
{
    if from >= to {
        None
    } else if found(from) {
        Some(from)
    } else {
        first_index(from + 1, to, found)
    }
}

/// `first_index` returns the least index at which `found` holds, and `None`
/// only where it holds nowhere in the range.
pub proof fn lemma_first_index(from: int, to: int, found: spec_fn(int) -> bool)
    ensures
        match first_index(from, to, found) {
            Some(i) => from <= i < to && found(i) && forall|j: int| from <= j < i ==> !#[trigger] found(j),
            None => forall|j: int| from <= j < to ==> !#[trigger] found(j),
        },
    decreases to - from,
{
    if from < to && !found(from) {
        lemma_first_index(from + 1, to, found);
    }
}

/// An index at which `found` holds, with none before it, is the first.
pub proof fn lemma_first_index_is(from: int, to: int, found: spec_fn(int) -> bool, i: int)
    requires
        from <= i < to,
        found(i),
        forall|j: int| from <= j < i ==> !#[trigger] found(j),
    ensures
        first_index(from, to, found) == Some(i),
    decreases to - from,
{
    if from < i {
        lemma_first_index_is(from + 1, to, found, i);
    }
}

/// Where `found` holds nowhere in the range, there is no first index.
pub proof fn lemma_first_index_none(from: int, to: int, found: spec_fn(int) -> bool)
    requires
        forall|j: int| from <= j < to ==> !#[trigger] found(j),
    ensures
        first_index(from, to, found) is None,
    decreases to - from,
{
    if from < to {
        lemma_first_index_none(from + 1, to, found);
    }
}

/// The members of a longer start of a sequence are those of the shorter
/// start and the item that comes next.
pub proof fn lemma_take_to_set<A>(items: Seq<A>, k: int)
    requires
        0 <= k < items.len(),
    ensures
        items.take(k + 1).to_set() == items.take(k).to_set().insert(items[k]),
{
    let before = items.take(k);
    let after = items.take(k + 1);
    assert forall|item: A| after.to_set().contains(item) == before.to_set().insert(
        items[k],
    ).contains(item) by {
        if before.contains(item) {
            let j = choose|j: int| 0 <= j < before.len() && before[j] == item;
            assert(after[j] == item);
        }
        if after.contains(item) {
            let j = choose|j: int| 0 <= j < after.len() && after[j] == item;
            if j < k {
                assert(before[j] == item);
            }
        }
        assert(after[k] == items[k]);
    }
    assert(after.to_set() =~= before.to_set().insert(items[k]));
}

} // verus!
