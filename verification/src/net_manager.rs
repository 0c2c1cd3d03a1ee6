//! How the netlist changes when the user bridges two nodes.

use vstd::prelude::*;

use crate::nets::{net_with_node, Nets, Rgb, MAX_NETS};
use crate::node::Node;
use rand::Rng;

verus! {

/// `rand::rngs::SmallRng`, a generator of random numbers. Nothing is
/// claimed of the type itself.
#[verifier::external_type_specification]
#[verifier::external_body]
pub struct ExSmallRng(rand::rngs::SmallRng);

/// Calls `rand::Rng::gen` for a byte, which may give any byte.
#[verifier::external_body]
fn random_byte(rng: &mut rand::rngs::SmallRng) -> (byte: u8) {
    rng.gen()
}

/// Calls `rand::Rng::gen_range` with the range from 0 up to, but without,
/// 3. The number that it gives lies in that range.
#[verifier::external_body]
fn random_channel(rng: &mut rand::rngs::SmallRng) -> (channel: i32)
    ensures
        0 <= channel < 3,
{
    rng.gen_range(0..3)
}

/// The color with one of its parts quartered: the red part for the channel
/// 0, the green part for 1, and the blue part for any other.
pub open spec fn spec_saturate(color: Rgb, channel: i32) -> Rgb {
    if channel == 0 {
        Rgb(color.0 / 4, color.1, color.2)
    } else if channel == 1 {
        Rgb(color.0, color.1 / 4, color.2)
    } else {
        Rgb(color.0, color.1, color.2 / 4)
    }
}

/// Makes a color more saturated, by taking one of its parts down to a
/// quarter.
pub fn saturate(color: Rgb, channel: i32) -> (r: Rgb)
    ensures
        r == spec_saturate(color, channel),
{
    if channel == 0 {
        Rgb(color.0 / 4, color.1, color.2)
    } else if channel == 1 {
        Rgb(color.0, color.1 / 4, color.2)
    } else {
        Rgb(color.0, color.1, color.2 / 4)
    }
}

/// Picks a random color for a net: three random parts, one of which, picked
/// at random, is taken down to a quarter so that the color is saturated.
pub fn random_color(rng: &mut rand::rngs::SmallRng) -> (r: Rgb)
    ensures
        r.0 < 64 || r.1 < 64 || r.2 < 64,
{
    let red = random_byte(rng);
    let green = random_byte(rng);
    let blue = random_byte(rng);
    saturate(Rgb(red, green, blue), random_channel(rng))
}

/// What bridging two nodes did to the netlist.
#[derive(Copy, Clone, PartialEq, Eq, Structural, Debug)]
pub enum Bridged {
    /// Both nodes belonged to nets, and the nodes of the one were moved to
    /// the other.
    Merged,
    /// One node belonged to a net, and the other was added to it.
    Extended,
    /// Neither node belonged to a net, and a new net was made of the two.
    Created,
    /// Both nodes belong to special nets, which cannot be merged.
    SpecialNets,
    /// Neither node belonged to a net, and there is no room for another
    /// net.
    NoRoom,
}

/// What bridging the nodes with the identifiers `a` and `b` makes of the
/// netlist `before`. Where both belong to a net, the two nets are merged,
/// into the special one if one of them is special; two special nets are
/// left as they are. Where one belongs to a net, the other is added to that
/// net. Where none does, the two make a new net of the given color, if
/// there is room for one.
pub open spec fn bridged<N: Node>(
    before: &Nets<N>,
    after: &Nets<N>,
    a: int,
    b: int,
    color: Rgb,
    outcome: Bridged,
) -> bool {
    match (net_with_node(before.spec_nets(), a), net_with_node(before.spec_nets(), b)) {
        (Some(i), Some(j)) => {
            &&& after.same_frame(before)
            &&& if before.id_at(i).spec_is_special() && before.id_at(j).spec_is_special() {
                outcome == Bridged::SpecialNets && after.spec_nets() == before.spec_nets()
            } else if before.id_at(j).spec_is_special() {
                outcome == Bridged::Merged && merged(before, after, j, i)
            } else {
                outcome == Bridged::Merged && merged(before, after, i, j)
            }
        },
        (Some(i), None) => outcome == Bridged::Extended && after.same_frame(before) && grown(
            before,
            after,
            i,
            set![b],
        ),
        (None, Some(j)) => outcome == Bridged::Extended && after.same_frame(before) && grown(
            before,
            after,
            j,
            set![a],
        ),
        (None, None) => if before.count() < MAX_NETS {
            &&& outcome == Bridged::Created
            &&& after.count() == before.count() + 1
            &&& after.spec_colors() == before.spec_colors().push(color)
            &&& forall|k: int|
                0 <= k < before.count() ==> #[trigger] after.ids_at(k) == before.ids_at(k)
                    && after.id_at(k) == before.id_at(k)
            &&& after.id_at(before.count()).spec_index() == before.count()
            &&& after.ids_at(before.count()) == set![a, b]
        } else {
            outcome == Bridged::NoRoom && after.spec_nets() == before.spec_nets()
                && after.spec_colors() == before.spec_colors()
        },
    }
}

/// Connects two nodes, and says what that did to the netlist.
pub fn add_bridge_colored<N: Node>(nets: &mut Nets<N>, a: N, b: N, color: Rgb) -> (r: Bridged)
    ensures
        final(nets).spec_supply_switch_pos() == old(nets).spec_supply_switch_pos(),
        bridged(old(nets), final(nets), a.spec_id() as int, b.spec_id() as int, color, r),
{
    let net_a = nets.with_node(a);
    let net_b = nets.with_node(b);
    proof {
        crate::search::lemma_first_index(
            0,
            nets.count(),
            crate::nets::holds_node_at(nets.spec_nets(), a.spec_id() as int),
        );
        crate::search::lemma_first_index(
            0,
            nets.count(),
            crate::nets::holds_node_at(nets.spec_nets(), b.spec_id() as int),
        );
    }
    match (net_a, net_b) {
        (Some(net_a), Some(net_b)) => {
            let _ = nets.nets();
            if net_a.is_special() && net_b.is_special() {
                Bridged::SpecialNets
            } else if net_b.is_special() {
                nets.merge(net_b, net_a);
                Bridged::Merged
            } else {
                nets.merge(net_a, net_b);
                Bridged::Merged
            }
        },
        (Some(net_a), None) => {
            let _ = nets.nets();
            let _ = nets.add_node(net_a, b);
            proof {
                assert forall|k: int| 0 <= k < old(nets).count() implies #[trigger] nets.ids_at(k)
                    == if k == net_a.spec_index() {
                    old(nets).ids_at(k).union(set![b.spec_id() as int])
                } else {
                    old(nets).ids_at(k)
                } by {
                    assert(old(nets).ids_at(k).insert(b.spec_id() as int) =~= old(nets).ids_at(
                        k,
                    ).union(set![b.spec_id() as int]));
                }
            }
            Bridged::Extended
        },
        (None, Some(net_b)) => {
            let _ = nets.nets();
            let _ = nets.add_node(net_b, a);
            proof {
                assert forall|k: int| 0 <= k < old(nets).count() implies #[trigger] nets.ids_at(k)
                    == if k == net_b.spec_index() {
                    old(nets).ids_at(k).union(set![a.spec_id() as int])
                } else {
                    old(nets).ids_at(k)
                } by {
                    assert(old(nets).ids_at(k).insert(a.spec_id() as int) =~= old(nets).ids_at(
                        k,
                    ).union(set![a.spec_id() as int]));
                }
            }
            Bridged::Extended
        },
        (None, None) => {
            if nets.nets().len() >= MAX_NETS {
                return Bridged::NoRoom;
            }
            let net_id = nets.new_net(color);
            let ghost made = *nets;
            let ghost count = old(nets).count();
            proof {
                use_type_invariant(net_id);
                let a_id = a.spec_id() as int;
                let holds = crate::nets::holds_node_at(nets.spec_nets(), a_id);
                assert forall|k: int| 0 <= k < nets.count() implies !#[trigger] holds(k) by {
                    if k < count {
                        assert(nets.spec_nets()[k] == old(nets).spec_nets()[k]);
                        assert(!crate::nets::holds_node_at(old(nets).spec_nets(), a_id)(k));
                    }
                }
                crate::search::lemma_first_index_none(0, nets.count(), holds);
            }
            let _ = nets.add_node(net_id, a);
            let ghost first = *nets;
            proof {
                let b_id = b.spec_id() as int;
                let holds = crate::nets::holds_node_at(nets.spec_nets(), b_id);
                crate::search::lemma_first_index(0, nets.count(), holds);
                assert forall|k: int| 0 <= k < count implies !#[trigger] holds(k) by {
                    assert(first.ids_at(k) == made.ids_at(k));
                    assert(made.spec_nets()[k] == old(nets).spec_nets()[k]);
                    assert(!crate::nets::holds_node_at(old(nets).spec_nets(), b_id)(k));
                }
                assert(first.ids_at(count) =~= set![a.spec_id() as int]);
                if a.spec_id() == b.spec_id() {
                    assert(holds(count));
                    crate::search::lemma_first_index_is(0, nets.count(), holds, count);
                } else {
                    crate::search::lemma_first_index_none(0, nets.count(), holds);
                }
            }
            let _ = nets.add_node(net_id, b);
            proof {
                assert(nets.ids_at(count) =~= set![a.spec_id() as int, b.spec_id() as int]);
                assert forall|k: int| 0 <= k < count implies #[trigger] nets.ids_at(k) == old(
                    nets,
                ).ids_at(k) && nets.id_at(k) == old(nets).id_at(k) by {
                    assert(first.ids_at(k) == made.ids_at(k));
                    assert(made.spec_nets()[k] == old(nets).spec_nets()[k]);
                    assert(first.id_at(k) == made.id_at(k));
                }
            }
            Bridged::Created
        },
    }
}

/// The nodes of the net at `src` were moved to the net at `dest`.
pub open spec fn merged<N: Node>(before: &Nets<N>, after: &Nets<N>, dest: int, src: int) -> bool {
    forall|k: int|
        0 <= k < before.count() ==> #[trigger] after.ids_at(k) == if k == dest {
            before.ids_at(k).union(before.ids_at(src))
        } else if k == src {
            Set::<int>::empty()
        } else {
            before.ids_at(k)
        }
}

/// The given nodes were added to the net at `to`.
pub open spec fn grown<N: Node>(before: &Nets<N>, after: &Nets<N>, to: int, ids: Set<int>) -> bool {
    forall|k: int|
        0 <= k < before.count() ==> #[trigger] after.ids_at(k) == if k == to {
            before.ids_at(k).union(ids)
        } else {
            before.ids_at(k)
        }
}

/// Connects two nodes, as `add_bridge_colored` does, with a random color
/// for a new net.
pub fn add_bridge<N: Node>(nets: &mut Nets<N>, a: N, b: N, rng: &mut rand::rngs::SmallRng) -> (r:
    Bridged)
    ensures
        final(nets).spec_supply_switch_pos() == old(nets).spec_supply_switch_pos(),
        exists|color: Rgb|
            bridged(old(nets), final(nets), a.spec_id() as int, b.spec_id() as int, color, r),
{
    let net_a = nets.with_node(a);
    let net_b = nets.with_node(b);
    let color = if net_a.is_none() && net_b.is_none() {
        random_color(rng)
    } else {
        Rgb(0, 0, 0)
    };
    let outcome = add_bridge_colored(nets, a, b, color);
    proof {
        assert(bridged(
            old(nets),
            nets,
            a.spec_id() as int,
            b.spec_id() as int,
            color,
            outcome,
        ));
    }
    outcome
}

} // verus!
