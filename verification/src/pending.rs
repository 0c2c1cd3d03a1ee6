//! The two lists of connections that wait to be completed, each kept in a
//! vector of fixed capacity.

use vstd::prelude::*;

use crate::route::{PendingBounce, PendingEdgeNet, MAX_NETS};

verus! {

/// `heapless::Vec`, a vector that holds its items in place, up to a fixed
/// capacity. Nothing is claimed of the type itself.
#[verifier::external_type_specification]
#[verifier::external_body]
#[verifier::reject_recursive_types(T)]
pub struct ExHeaplessVec<T, const N: usize>(heapless::Vec<T, N>);

/// The edges that wait in the list, in the order in which they were added.
pub uninterp spec fn edge_net_items(list: heapless::Vec<PendingEdgeNet, MAX_NETS>) -> Seq<
    PendingEdgeNet,
>;

/// The bounces that wait in the list, in the order in which they were
/// added.
pub uninterp spec fn bounce_items(list: heapless::Vec<PendingBounce, MAX_NETS>) -> Seq<
    PendingBounce,
>;

/// Calls `heapless::Vec::new`, which makes a vector that holds nothing.
#[verifier::external_body]
pub(crate) fn edge_nets_new() -> (list: heapless::Vec<PendingEdgeNet, MAX_NETS>)
    ensures
        edge_net_items(list) == Seq::<PendingEdgeNet>::empty(),
{
    heapless::Vec::new()
}

/// Calls `heapless::Vec::push`. Below the capacity it appends the item at
/// the back; at the capacity it hands the item back and changes nothing.
/// The result says whether the item was appended.
#[verifier::external_body]
pub(crate) fn edge_nets_push(
    list: &mut heapless::Vec<PendingEdgeNet, MAX_NETS>,
    item: PendingEdgeNet,
) -> (pushed: bool)
    ensures
        pushed == (edge_net_items(*old(list)).len() < MAX_NETS),
        edge_net_items(*final(list)) == if pushed {
            edge_net_items(*old(list)).push(item)
        } else {
            edge_net_items(*old(list))
        },
{
    list.push(item).is_ok()
}

/// Calls `heapless::Vec::as_slice`, which gives the items of the vector as
/// a slice, in their order.
#[verifier::external_body]
pub(crate) fn edge_nets_as_slice(list: &heapless::Vec<PendingEdgeNet, MAX_NETS>) -> (items: &[PendingEdgeNet])
    ensures
        items@ == edge_net_items(*list),
{
    list.as_slice()
}

/// Calls `heapless::Vec::new`, which makes a vector that holds nothing.
#[verifier::external_body]
pub(crate) fn bounces_new() -> (list: heapless::Vec<PendingBounce, MAX_NETS>)
    ensures
        bounce_items(list) == Seq::<PendingBounce>::empty(),
{
    heapless::Vec::new()
}

/// Calls `heapless::Vec::push`. Below the capacity it appends the item at
/// the back; at the capacity it hands the item back and changes nothing.
/// The result says whether the item was appended.
#[verifier::external_body]
pub(crate) fn bounces_push(
    list: &mut heapless::Vec<PendingBounce, MAX_NETS>,
    item: PendingBounce,
) -> (pushed: bool)
    ensures
        pushed == (bounce_items(*old(list)).len() < MAX_NETS),
        bounce_items(*final(list)) == if pushed {
            bounce_items(*old(list)).push(item)
        } else {
            bounce_items(*old(list))
        },
{
    list.push(item).is_ok()
}

/// Calls `heapless::Vec::as_slice`, which gives the items of the vector as
/// a slice, in their order.
#[verifier::external_body]
pub(crate) fn bounces_as_slice(list: &heapless::Vec<PendingBounce, MAX_NETS>) -> (items: &[PendingBounce])
    ensures
        items@ == bounce_items(*list),
{
    list.as_slice()
}

} // verus!
