//! The wiring of a board: its node-ports, its lanes and its bounce ports;
//! and the check that every port is wired exactly once.

pub mod generator;

use vstd::prelude::*;

use crate::lane::Lane;
use crate::map::port_map::{PortMap, PortUse};
use crate::node::Node;
use crate::port::Port;
use crate::set::port_set::PortSet;

verus! {

/// A node together with one of the ports that it is wired to.
#[derive(Debug)]
pub struct NodePort<N: Node>(pub N, pub Port);

/// The wiring of a board: which port each node is wired to, which ports the
/// lanes connect, and which ports are kept for bounces.
///
/// A node may appear several times in `node_ports`: it is then wired to
/// each of the ports.
pub struct BoardSpec<
    N: Node,
    const NODE_PORT_COUNT: usize,
    const LANE_COUNT: usize,
    const BOUNCE_PORT_COUNT: usize,
> {
    pub node_ports: [NodePort<N>; NODE_PORT_COUNT],
    pub lanes: [Lane; LANE_COUNT],
    pub bounce_ports: [Port; BOUNCE_PORT_COUNT],
}

/// What `port` is mapped to once the first `count` node-ports are entered
/// in an empty map, each entry replacing an earlier one for the same port.
pub open spec fn node_port_use<N: Node>(
    node_ports: Seq<NodePort<N>>,
    count: int,
    port: Port,
) -> PortUse
    decreases count,
{
    if count <= 0 {
        PortUse::Unused
    } else if node_ports[count - 1].1 == port {
        PortUse::Node(node_ports[count - 1].0.spec_id())
    } else {
        node_port_use(node_ports, count - 1, port)
    }
}

/// What `port` is mapped to once all node-ports are entered, and after them
/// both ends of each of the first `count` lanes.
pub open spec fn lane_port_use<N: Node>(
    node_ports: Seq<NodePort<N>>,
    lanes: Seq<Lane>,
    count: int,
    port: Port,
) -> PortUse
    decreases count,
{
    if count <= 0 {
        node_port_use(node_ports, node_ports.len() as int, port)
    } else if lanes[count - 1].has_end(port) {
        PortUse::Lane((count - 1) as usize)
    } else {
        lane_port_use(node_ports, lanes, count - 1, port)
    }
}

/// What `port` is mapped to on a board with the given node-ports and lanes.
pub open spec fn port_use<N: Node>(
    node_ports: Seq<NodePort<N>>,
    lanes: Seq<Lane>,
    port: Port,
) -> PortUse {
    lane_port_use(node_ports, lanes, lanes.len() as int, port)
}

/// A port that is mapped to a lane is one of the ends of that lane.
pub proof fn lemma_lane_port_use<N: Node>(
    node_ports: Seq<NodePort<N>>,
    lanes: Seq<Lane>,
    count: int,
    port: Port,
)
    requires
        0 <= count <= lanes.len() <= 127,
    ensures
        lane_port_use(node_ports, lanes, count, port) matches PortUse::Lane(index) ==> index
            < count && lanes[index as int].has_end(port),
        lane_port_use(node_ports, lanes, count, port) !is Lane ==> forall|i: int|
            0 <= i < count ==> !(#[trigger] lanes[i]).has_end(port),
    decreases count,
{
    if count > 0 {
        if !lanes[count - 1].has_end(port) {
            lemma_lane_port_use(node_ports, lanes, count - 1, port);
        }
    } else {
        lemma_node_port_use(node_ports, node_ports.len() as int, port);
    }
}

/// A port that is mapped to a node is the port of one of the node-ports
/// with that node, and a port that is mapped to nothing is in none.
pub proof fn lemma_node_port_use<N: Node>(node_ports: Seq<NodePort<N>>, count: int, port: Port)
    requires
        0 <= count <= node_ports.len(),
    ensures
        node_port_use(node_ports, count, port) !is Lane,
        node_port_use(node_ports, count, port) matches PortUse::Node(id) ==> exists|k: int|
            0 <= k < count && (#[trigger] node_ports[k]).1 == port && node_ports[k].0.spec_id()
                == id,
        node_port_use(node_ports, count, port) is Unused ==> forall|k: int|
            0 <= k < count ==> (#[trigger] node_ports[k]).1 != port,
    decreases count,
{
    if count > 0 {
        if node_ports[count - 1].1 != port {
            lemma_node_port_use(node_ports, count - 1, port);
        }
    }
}

impl<
    N: Node,
    const NODE_PORT_COUNT: usize,
    const LANE_COUNT: usize,
    const BOUNCE_PORT_COUNT: usize,
> BoardSpec<N, NODE_PORT_COUNT, LANE_COUNT, BOUNCE_PORT_COUNT> {
    /// Builds the map from each port to the node or lane that it is wired
    /// to. Where a port appears more than once, the lanes win over the
    /// nodes, and of two nodes or two lanes the later one wins.
    pub fn create_port_map(&self) -> (r: PortMap<N>)
        requires
            LANE_COUNT <= 127,
        ensures
            forall|port: Port|
                port.wf() ==> r.spec_get(port) == port_use(self.node_ports@, self.lanes@, port),
    {
        let mut port_map: PortMap<N> = PortMap::default();
        let mut k: usize = 0;
        while k < NODE_PORT_COUNT
            invariant
                k <= NODE_PORT_COUNT,
                forall|port: Port|
                    port.wf() ==> port_map.spec_get(port) == node_port_use(
                        self.node_ports@,
                        k as int,
                        port,
                    ),
            decreases NODE_PORT_COUNT - k,
        {
            let node = self.node_ports[k].0;
            let port = self.node_ports[k].1;
            proof {
                use_type_invariant(port);
            }
            port_map.set_node(port, node);
            k += 1;
        }
        let mut index: usize = 0;
        while index < LANE_COUNT
            invariant
                index <= LANE_COUNT <= 127,
                forall|port: Port|
                    port.wf() ==> port_map.spec_get(port) == lane_port_use(
                        self.node_ports@,
                        self.lanes@,
                        index as int,
                        port,
                    ),
            decreases LANE_COUNT - index,
        {
            let a = self.lanes[index].0;
            let b = self.lanes[index].1;
            proof {
                use_type_invariant(a);
                use_type_invariant(b);
            }
            port_map.set_lane_index(a, index);
            port_map.set_lane_index(b, index);
            index += 1;
        }
        port_map
    }
}

/// The ports that the wiring refers to, one entry for each reference: the
/// ports of the node-ports, then both ends of each lane, then the bounce
/// ports.
pub open spec fn port_uses<N: Node>(
    node_ports: Seq<NodePort<N>>,
    lanes: Seq<Lane>,
    bounce_ports: Seq<Port>,
) -> Seq<Port> {
    node_port_uses(node_ports) + lane_uses(lanes) + bounce_ports
}

/// The ports of the node-ports, in order.
pub open spec fn node_port_uses<N: Node>(node_ports: Seq<NodePort<N>>) -> Seq<Port> {
    Seq::new(node_ports.len(), |i: int| node_ports[i].1)
}

/// Both ends of each lane, in order.
pub open spec fn lane_uses(lanes: Seq<Lane>) -> Seq<Port> {
    Seq::new(
        2 * lanes.len(),
        |i: int|
            if i % 2 == 0 {
                lanes[i / 2].0
            } else {
                lanes[i / 2].1
            },
    )
}

/// The references to a port that earlier references have referred to
/// already, in order.
pub open spec fn repeated_uses(uses: Seq<Port>) -> Seq<Port>
    decreases uses.len(),
{
    if uses.len() == 0 {
        Seq::empty()
    } else if uses.drop_last().contains(uses.last()) {
        repeated_uses(uses.drop_last()).push(uses.last())
    } else {
        repeated_uses(uses.drop_last())
    }
}

/// The ports with an address of at least `from` that are not in `used`, by
/// ascending address.
pub open spec fn unused_from(used: Set<Port>, from: int) -> Seq<Port>
    decreases 288 - from,
{
    if from >= 288 {
        Seq::empty()
    } else if used.contains(Port::from_address(from)) {
        unused_from(used, from + 1)
    } else {
        seq![Port::from_address(from)] + unused_from(used, from + 1)
    }
}

/// What is wrong with the wiring of a board.
#[derive(Debug, PartialEq, Eq)]
pub struct Problems {
    /// The references to a port that was referred to before, in order.
    pub repeated: Vec<Port>,
    /// The ports that nothing refers to, by ascending address.
    pub unused: Vec<Port>,
}

/// Checks that every port of the board is referred to exactly once: by one
/// node-port, as one end of one lane, or as a bounce port.
pub fn sanity_check<N: Node>(
    node_ports: &[NodePort<N>],
    lanes: &[Lane],
    bounce_ports: &[Port],
) -> (r: Result<(), Problems>)
    ensures
        r is Ok <==> repeated_uses(port_uses(node_ports@, lanes@, bounce_ports@)).len() == 0
            && unused_from(port_uses(node_ports@, lanes@, bounce_ports@).to_set(), 0).len() == 0,
        r is Ok && lanes@.len() <= 127 ==> crate::joining::sound_wiring(node_ports@, lanes@),
        r matches Err(problems) ==> problems.repeated@ == repeated_uses(
            port_uses(node_ports@, lanes@, bounce_ports@),
        ) && problems.unused@ == unused_from(
            port_uses(node_ports@, lanes@, bounce_ports@).to_set(),
            0,
        ),
{
    let ghost uses = port_uses(node_ports@, lanes@, bounce_ports@);
    let ghost mut done: Seq<Port> = Seq::empty();
    let mut repeated: Vec<Port> = Vec::new();
    let mut used_ports = PortSet::empty();
    proof {
        assert(done.to_set() =~= Set::<Port>::empty());
    }
    let mut k: usize = 0;
    while k < node_ports.len()
        invariant
            k <= node_ports@.len(),
            forall|i: int| 0 <= i < k ==> (#[trigger] node_ports@[i]).1.wf(),
            done == node_port_uses(node_ports@).take(k as int),
            used_ports@ == done.to_set(),
            repeated@ == repeated_uses(done),
        decreases node_ports@.len() - k,
    {
        let port = node_ports[k].1;
        proof {
            use_type_invariant(port);
            assert(node_port_uses(node_ports@).take(k + 1) =~= done.push(port));
        }
        note_use(port, &mut used_ports, &mut repeated, Ghost(done));
        proof {
            done = done.push(port);
        }
        k += 1;
    }
    proof {
        assert(done =~= node_port_uses(node_ports@));
        assert(done =~= node_port_uses(node_ports@) + lane_uses(lanes@).take(0));
    }
    let mut k: usize = 0;
    while k < lanes.len()
        invariant
            k <= lanes@.len(),
            forall|i: int| 0 <= i < node_ports@.len() ==> (#[trigger] node_ports@[i]).1.wf(),
            forall|i: int| 0 <= i < k ==> (#[trigger] lanes@[i]).wf(),
            done == node_port_uses(node_ports@) + lane_uses(lanes@).take(2 * k),
            used_ports@ == done.to_set(),
            repeated@ == repeated_uses(done),
        decreases lanes@.len() - k,
    {
        let a = lanes[k].0;
        let b = lanes[k].1;
        proof {
            use_type_invariant(a);
            use_type_invariant(b);
            let ends = lane_uses(lanes@);
            assert(ends[2 * k] == a && ends[2 * k + 1] == b);
            assert(node_port_uses(node_ports@) + ends.take(2 * k + 2) =~= done.push(a).push(b));
        }
        note_use(a, &mut used_ports, &mut repeated, Ghost(done));
        note_use(b, &mut used_ports, &mut repeated, Ghost(done.push(a)));
        proof {
            done = done.push(a).push(b);
        }
        k += 1;
    }
    proof {
        assert(lane_uses(lanes@).take(2 * k) =~= lane_uses(lanes@));
        assert(done =~= node_port_uses(node_ports@) + lane_uses(lanes@) + bounce_ports@.take(0));
    }
    let mut k: usize = 0;
    while k < bounce_ports.len()
        invariant
            k <= bounce_ports@.len(),
            forall|i: int| 0 <= i < node_ports@.len() ==> (#[trigger] node_ports@[i]).1.wf(),
            forall|i: int| 0 <= i < lanes@.len() ==> (#[trigger] lanes@[i]).wf(),
            done == node_port_uses(node_ports@) + lane_uses(lanes@) + bounce_ports@.take(k as int),
            used_ports@ == done.to_set(),
            repeated@ == repeated_uses(done),
        decreases bounce_ports@.len() - k,
    {
        let port = bounce_ports[k];
        proof {
            assert(node_port_uses(node_ports@) + lane_uses(lanes@) + bounce_ports@.take(k + 1)
                =~= done.push(port));
        }
        note_use(port, &mut used_ports, &mut repeated, Ghost(done));
        proof {
            done = done.push(port);
        }
        k += 1;
    }
    proof {
        assert(bounce_ports@.take(k as int) =~= bounce_ports@);
        assert(done == uses);
    }
    let mut unused: Vec<Port> = Vec::new();
    let ports = Port::all();
    let mut address: usize = 0;
    proof {
        if repeated@.len() == 0 && lanes@.len() <= 127 {
            lemma_unrepeated_is_sound(node_ports@, lanes@, bounce_ports@);
        }
    }
    while address < 288
        invariant
            address <= 288,
            ports@.len() == 288,
            forall|a: int| 0 <= a < 288 ==> ports@[a] == Port::from_address(a),
            unused@ + unused_from(used_ports@, address as int) == unused_from(used_ports@, 0),
        decreases 288 - address,
    {
        let port = ports[address];
        if !used_ports.contains(port) {
            proof {
                assert(unused@.push(port) + unused_from(used_ports@, address + 1) =~= unused@
                    + unused_from(used_ports@, address as int));
            }
            unused.push(port);
        }
        address += 1;
    }
    proof {
        assert(unused@ + unused_from(used_ports@, 288) =~= unused@);
    }
    if repeated.len() == 0 && unused.len() == 0 {
        Ok(())
    } else {
        Err(Problems { repeated, unused })
    }
}

/// Where no reference repeats an earlier one, no two references are to the
/// same port.
pub proof fn lemma_unrepeated(uses: Seq<Port>, i: int, j: int)
    requires
        repeated_uses(uses).len() == 0,
        0 <= i < j < uses.len(),
    ensures
        uses[i] != uses[j],
    decreases uses.len(),
{
    let before = uses.drop_last();
    if before.contains(uses.last()) {
        assert(repeated_uses(uses).len() == repeated_uses(before).len() + 1);
    } else if j < uses.len() - 1 {
        lemma_unrepeated(before, i, j);
    } else {
        assert(before[i] == uses[i]);
    }
}

/// A wiring in which no reference to a port repeats an earlier one, with
/// ports of the board throughout, is one in which no port is wired twice.
pub proof fn lemma_unrepeated_is_sound<N: Node>(
    node_ports: Seq<NodePort<N>>,
    lanes: Seq<Lane>,
    bounce_ports: Seq<Port>,
)
    requires
        repeated_uses(port_uses(node_ports, lanes, bounce_ports)).len() == 0,
        lanes.len() <= 127,
        forall|i: int| 0 <= i < node_ports.len() ==> (#[trigger] node_ports[i]).1.wf(),
        forall|i: int| 0 <= i < lanes.len() ==> (#[trigger] lanes[i]).wf(),
    ensures
        crate::joining::sound_wiring(node_ports, lanes),
{
    let uses = port_uses(node_ports, lanes, bounce_ports);
    let count = node_ports.len() as int;
    assert forall|i: int, j: int| 0 <= i < j < node_ports.len() implies (
    #[trigger] node_ports[i]).1 != (#[trigger] node_ports[j]).1 by {
        assert(uses[i] == node_ports[i].1 && uses[j] == node_ports[j].1);
        lemma_unrepeated(uses, i, j);
    }
    assert forall|i: int, j: int|
        0 <= i < node_ports.len() && 0 <= j < lanes.len() implies !(#[trigger] lanes[j]).has_end(
        (#[trigger] node_ports[i]).1,
    ) by {
        assert(uses[i] == node_ports[i].1);
        assert(uses[count + 2 * j] == lanes[j].0) by {
            assert(lane_uses(lanes)[2 * j] == lanes[j].0);
        }
        assert(uses[count + 2 * j + 1] == lanes[j].1) by {
            assert(lane_uses(lanes)[2 * j + 1] == lanes[j].1);
        }
        lemma_unrepeated(uses, i, count + 2 * j);
        lemma_unrepeated(uses, i, count + 2 * j + 1);
    }
    assert forall|i: int, j: int, port: Port|
        0 <= i < lanes.len() && 0 <= j < lanes.len() && #[trigger] lanes[i].has_end(port)
            && #[trigger] lanes[j].has_end(port) implies i == j by {
        assert(uses[count + 2 * i] == lanes[i].0) by {
            assert(lane_uses(lanes)[2 * i] == lanes[i].0);
        }
        assert(uses[count + 2 * i + 1] == lanes[i].1) by {
            assert(lane_uses(lanes)[2 * i + 1] == lanes[i].1);
        }
        assert(uses[count + 2 * j] == lanes[j].0) by {
            assert(lane_uses(lanes)[2 * j] == lanes[j].0);
        }
        assert(uses[count + 2 * j + 1] == lanes[j].1) by {
            assert(lane_uses(lanes)[2 * j + 1] == lanes[j].1);
        }
        if i < j {
            lemma_unrepeated(uses, count + 2 * i, count + 2 * j);
            lemma_unrepeated(uses, count + 2 * i, count + 2 * j + 1);
            lemma_unrepeated(uses, count + 2 * i + 1, count + 2 * j);
            lemma_unrepeated(uses, count + 2 * i + 1, count + 2 * j + 1);
        } else if j < i {
            lemma_unrepeated(uses, count + 2 * j, count + 2 * i);
            lemma_unrepeated(uses, count + 2 * j, count + 2 * i + 1);
            lemma_unrepeated(uses, count + 2 * j + 1, count + 2 * i);
            lemma_unrepeated(uses, count + 2 * j + 1, count + 2 * i + 1);
        }
    }
}

/// Where no two references are to the same port, no reference repeats an
/// earlier one.
pub proof fn lemma_distinct_is_unrepeated(uses: Seq<Port>)
    requires
        forall|i: int, j: int| 0 <= i < j < uses.len() ==> uses[i] != uses[j],
    ensures
        repeated_uses(uses).len() == 0,
    decreases uses.len(),
{
    if uses.len() > 0 {
        let before = uses.drop_last();
        lemma_distinct_is_unrepeated(before);
        if before.contains(uses.last()) {
            let i = choose|i: int| 0 <= i < before.len() && before[i] == uses.last();
            assert(uses[i] == uses[uses.len() - 1]);
        }
    }
}

/// Where every port of the board is referred to, none is left over.
pub proof fn lemma_none_unused(used: Set<Port>, from: int)
    requires
        0 <= from,
        forall|port: Port| port.wf() ==> used.contains(port),
    ensures
        unused_from(used, from).len() == 0,
    decreases 288 - from,
{
    if from < 288 {
        Port::lemma_from_address(from);
        lemma_none_unused(used, from + 1);
    }
}

/// A wiring with 288 references to ports is one in which every port of the
/// board is wired exactly once, where a table says of each port which
/// reference is to it, and each reference is the one that the table gives
/// for its port.
pub proof fn lemma_wired_once<N: Node>(
    node_ports: Seq<NodePort<N>>,
    lanes: Seq<Lane>,
    bounce_ports: Seq<Port>,
    user: spec_fn(int) -> int,
)
    requires
        lanes.len() <= 127,
        port_uses(node_ports, lanes, bounce_ports).len() == 288,
        forall|k: int|
            0 <= k < 288 ==> (#[trigger] port_uses(node_ports, lanes, bounce_ports)[k]).wf()
                && user(port_uses(node_ports, lanes, bounce_ports)[k].address()) == k,
        forall|a: int|
            0 <= a < 288 ==> 0 <= #[trigger] user(a) < 288 && port_uses(
                node_ports,
                lanes,
                bounce_ports,
            )[user(a)] == Port::from_address(a),
    ensures
        repeated_uses(port_uses(node_ports, lanes, bounce_ports)).len() == 0,
        unused_from(port_uses(node_ports, lanes, bounce_ports).to_set(), 0).len() == 0,
        crate::joining::sound_wiring(node_ports, lanes),
{
    let uses = port_uses(node_ports, lanes, bounce_ports);
    let count = node_ports.len() as int;
    assert forall|i: int, j: int| 0 <= i < j < uses.len() implies uses[i] != uses[j] by {
        assert(user(uses[i].address()) == i);
        assert(user(uses[j].address()) == j);
    }
    lemma_distinct_is_unrepeated(uses);
    assert forall|port: Port| port.wf() implies uses.to_set().contains(port) by {
        port.lemma_address();
        assert(uses[user(port.address())] == port);
    }
    lemma_none_unused(uses.to_set(), 0);
    assert forall|i: int| 0 <= i < node_ports.len() implies (#[trigger] node_ports[i]).1.wf() by {
        assert(uses[i] == node_ports[i].1);
    }
    assert forall|i: int| 0 <= i < lanes.len() implies (#[trigger] lanes[i]).wf() by {
        assert(uses[count + 2 * i] == lanes[i].0) by {
            assert(lane_uses(lanes)[2 * i] == lanes[i].0);
        }
        assert(uses[count + 2 * i + 1] == lanes[i].1) by {
            assert(lane_uses(lanes)[2 * i + 1] == lanes[i].1);
        }
    }
    lemma_unrepeated_is_sound(node_ports, lanes, bounce_ports);
}

/// Notes that the port is referred to once more.
fn note_use(
    port: Port,
    used_ports: &mut PortSet,
    repeated: &mut Vec<Port>,
    Ghost(done): Ghost<Seq<Port>>,
)
    requires
        old(used_ports)@ == done.to_set(),
        old(repeated)@ == repeated_uses(done),
    ensures
        final(used_ports)@ == done.push(port).to_set(),
        final(repeated)@ == repeated_uses(done.push(port)),
{
    proof {
        assert(done.push(port).drop_last() =~= done);
        assert(done.push(port).last() == port);
    }
    if used_ports.contains(port) {
        repeated.push(port);
    }
    used_ports.insert(port);
    proof {
        let after = done.push(port);
        assert forall|other: Port| after.to_set().contains(other) == done.to_set().insert(
            port,
        ).contains(other) by {
            if done.contains(other) {
                let j = choose|j: int| 0 <= j < done.len() && done[j] == other;
                assert(after[j] == other);
            }
            if after.contains(other) {
                let j = choose|j: int| 0 <= j < after.len() && after[j] == other;
                if j < done.len() {
                    assert(done[j] == other);
                }
            }
            assert(after[done.len() as int] == port);
        }
        assert(after.to_set() =~= done.to_set().insert(port));
    }
}

} // verus!
