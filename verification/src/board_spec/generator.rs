//! Reading the description of a board: the nodes with their ports, the
//! lanes, and the ports kept for bounces, each given as lines of text.

use vstd::prelude::*;

use crate::board_spec::NodePort;
use crate::lane::Lane;
use crate::port::{parse_port, Port};
use crate::search::{first_index, lemma_first_index_is, lemma_first_index_none};
use crate::text::same_bytes;

verus! {

/// Why the description of a board could not be read. Lines are counted
/// from one.
#[derive(Debug, PartialEq, Eq)]
pub enum Error {
    /// The line of the lanes has no colon.
    InvalidLaneEntry { line: usize },
    /// The line of the nodes has no colon.
    InvalidNodeEntry { line: usize },
    /// The line names a port that the board does not have.
    InvalidPortSpec { line: usize },
    /// The line names a node, and 128 other nodes were named before it.
    TooManyNodes { line: usize },
}

/// A node of a board that is read from its description: the nodes are
/// numbered in the order in which the description names them first.
#[derive(Debug, Copy, Clone, PartialEq, Eq)]
pub struct DynNode(pub(crate) u8);

impl DynNode {
    /// The number is at most 127.
    #[verifier::type_invariant]
    pub open(crate) spec fn wf(self) -> bool {
        self.0 <= 127
    }

    /// The node with the given number.
    pub open(crate) spec fn spec_new(id: u8) -> DynNode {
        DynNode(id)
    }
}

impl crate::node::Node for DynNode {
    open(crate) spec fn spec_id(&self) -> u8 {
        self.0
    }

    open spec fn valid_id(id: u8) -> bool {
        id <= 127
    }

    fn id(&self) -> (r: u8) {
        proof {
            use_type_invariant(self);
        }
        self.0
    }

    fn from_id(id: u8) -> (r: Self) {
        Self(id)
    }

    proof fn lemma_id_injective(a: Self, b: Self) {
    }
}

/// The description of a board, as read from its text.
#[derive(Debug)]
pub struct DynBoardSpec {
    /// The names of the nodes; the node with the number `i` has the name
    /// `nodes[i]`.
    pub nodes: Vec<Vec<u8>>,
    pub node_ports: Vec<NodePort<DynNode>>,
    pub lanes: Vec<Lane>,
    pub bounce_ports: Vec<Port>,
}

/// The texts that the byte vectors hold.
pub open spec fn texts(lines: Seq<Vec<u8>>) -> Seq<Seq<u8>> {
    Seq::new(lines.len(), |i: int| lines[i]@)
}

/// Says of a position whether the byte there is a colon.
pub open spec fn is_colon_at(line: Seq<u8>) -> spec_fn(int) -> bool {
    |i: int| line[i] == 58
}

/// The position of the first colon of the line.
pub open spec fn first_colon(line: Seq<u8>) -> Option<int> {
    first_index(0, line.len() as int, is_colon_at(line))
}

/// Says of a number whether the node with that number has the given name.
pub open spec fn has_name_at(names: Seq<Seq<u8>>, name: Seq<u8>) -> spec_fn(int) -> bool {
    |i: int| names[i] == name
}

/// The number of the node with the given name.
pub open spec fn number_of(names: Seq<Seq<u8>>, name: Seq<u8>) -> Option<int> {
    first_index(0, names.len() as int, has_name_at(names, name))
}

/// The nodes named so far, and the node-ports read so far.
pub struct NodeTable {
    pub names: Seq<Seq<u8>>,
    pub node_ports: Seq<NodePort<DynNode>>,
}

/// Reads one line of the nodes: the name of a node, a colon, and the name
/// of a port that the node is wired to. A node that was not named before
/// gets the next number.
pub open spec fn read_node_line(table: NodeTable, text: Seq<u8>, line: usize) -> Result<
    NodeTable,
    Error,
> {
    match first_colon(text) {
        None => Err(Error::InvalidNodeEntry { line }),
        Some(colon) => {
            let name = text.subrange(0, colon);
            let number = match number_of(table.names, name) {
                Some(number) => number,
                None => table.names.len() as int,
            };
            let names = if number_of(table.names, name) is Some {
                table.names
            } else {
                table.names.push(name)
            };
            if number > 127 {
                Err(Error::TooManyNodes { line })
            } else {
                match parse_port(text.subrange(colon + 1, text.len() as int)) {
                    None => Err(Error::InvalidPortSpec { line }),
                    Some(port) => Ok(
                        NodeTable {
                            names,
                            node_ports: table.node_ports.push(
                                NodePort(DynNode::spec_new(number as u8), port),
                            ),
                        },
                    ),
                }
            }
        },
    }
}

/// Reads the lines of the nodes from the `k`th on. Empty lines are passed
/// over.
pub open spec fn read_nodes(lines: Seq<Seq<u8>>, k: int, table: NodeTable) -> Result<
    NodeTable,
    Error,
>
    decreases lines.len() - k,
{
    if k >= lines.len() {
        Ok(table)
    } else if lines[k].len() == 0 {
        read_nodes(lines, k + 1, table)
    } else {
        match read_node_line(table, lines[k], (k + 1) as usize) {
            Ok(next) => read_nodes(lines, k + 1, next),
            Err(error) => Err(error),
        }
    }
}

/// Reads one line of the lanes: the names of the two ports that the lane
/// connects, with a colon between them.
pub open spec fn read_lane_line(text: Seq<u8>, line: usize) -> Result<Lane, Error> {
    match first_colon(text) {
        None => Err(Error::InvalidLaneEntry { line }),
        Some(colon) => match parse_port(text.subrange(0, colon)) {
            None => Err(Error::InvalidPortSpec { line }),
            Some(a) => match parse_port(text.subrange(colon + 1, text.len() as int)) {
                None => Err(Error::InvalidPortSpec { line }),
                Some(b) => Ok(Lane(a, b)),
            },
        },
    }
}

/// Reads the lines of the lanes from the `k`th on. Empty lines are passed
/// over.
pub open spec fn read_lanes(lines: Seq<Seq<u8>>, k: int, lanes: Seq<Lane>) -> Result<
    Seq<Lane>,
    Error,
>
    decreases lines.len() - k,
{
    if k >= lines.len() {
        Ok(lanes)
    } else if lines[k].len() == 0 {
        read_lanes(lines, k + 1, lanes)
    } else {
        match read_lane_line(lines[k], (k + 1) as usize) {
            Ok(lane) => read_lanes(lines, k + 1, lanes.push(lane)),
            Err(error) => Err(error),
        }
    }
}

/// Reads the lines of the bounce ports from the `k`th on, each of them the
/// name of a port. Empty lines are passed over.
pub open spec fn read_bounce_ports(lines: Seq<Seq<u8>>, k: int, ports: Seq<Port>) -> Result<
    Seq<Port>,
    Error,
>
    decreases lines.len() - k,
{
    if k >= lines.len() {
        Ok(ports)
    } else if lines[k].len() == 0 {
        read_bounce_ports(lines, k + 1, ports)
    } else {
        match parse_port(lines[k]) {
            Some(port) => read_bounce_ports(lines, k + 1, ports.push(port)),
            None => Err(Error::InvalidPortSpec { line: (k + 1) as usize }),
        }
    }
}

/// The position of the first colon of the line.
fn find_colon(line: &[u8]) -> (r: Option<usize>)
    ensures
        match first_colon(line@) {
            Some(colon) => r == Some(colon as usize) && 0 <= colon < line@.len(),
            None => r is None,
        },
{
    let ghost found = is_colon_at(line@);
    let mut i: usize = 0;
    while i < line.len()
        invariant
            i <= line@.len(),
            found == is_colon_at(line@),
            forall|j: int| 0 <= j < i ==> !#[trigger] found(j),
        decreases line@.len() - i,
    {
        if line[i] == 58 {
            proof {
                lemma_first_index_is(0, line@.len() as int, found, i as int);
            }
            return Some(i);
        }
        i += 1;
    }
    proof {
        lemma_first_index_none(0, line@.len() as int, found);
    }
    None
}

/// The number of the node with the given name.
fn find_name(names: &Vec<Vec<u8>>, name: &[u8]) -> (r: Option<usize>)
    ensures
        match number_of(texts(names@), name@) {
            Some(number) => r == Some(number as usize) && 0 <= number < names@.len(),
            None => r is None,
        },
{
    let ghost found = has_name_at(texts(names@), name@);
    let mut i: usize = 0;
    while i < names.len()
        invariant
            i <= names@.len(),
            found == has_name_at(texts(names@), name@),
            forall|j: int| 0 <= j < i ==> !#[trigger] found(j),
        decreases names@.len() - i,
    {
        if same_bytes(names[i].as_slice(), name) {
            proof {
                lemma_first_index_is(0, names@.len() as int, found, i as int);
            }
            return Some(i);
        }
        i += 1;
    }
    proof {
        lemma_first_index_none(0, names@.len() as int, found);
    }
    None
}

/// Reads the port that is named between the two positions of the line.
fn read_port(text: &[u8], from: usize, to: usize) -> (r: Option<Port>)
    requires
        from <= to <= text@.len(),
    ensures
        r == parse_port(text@.subrange(from as int, to as int)),
{
    match Port::parse(vstd::slice::slice_subrange(text, from, to)) {
        Ok(port) => Some(port),
        Err(_) => None,
    }
}

/// Reads the description of a board from the lines of its three parts: the
/// nodes, the lanes and the bounce ports.
pub fn parse(nodes: &[Vec<u8>], lanes: &[Vec<u8>], bounce_ports: &[Vec<u8>]) -> (r: Result<
    DynBoardSpec,
    Error,
>)
    ensures
        match read_nodes(
            texts(nodes@),
            0,
            NodeTable { names: Seq::empty(), node_ports: Seq::empty() },
        ) {
            Err(error) => r == Err::<DynBoardSpec, Error>(error),
            Ok(table) => match read_lanes(texts(lanes@), 0, Seq::empty()) {
                Err(error) => r == Err::<DynBoardSpec, Error>(error),
                Ok(lane_list) => match read_bounce_ports(texts(bounce_ports@), 0, Seq::empty()) {
                    Err(error) => r == Err::<DynBoardSpec, Error>(error),
                    Ok(ports) => r matches Ok(spec) && texts(spec.nodes@) == table.names
                        && spec.node_ports@ == table.node_ports && spec.lanes@ == lane_list
                        && spec.bounce_ports@ == ports,
                },
            },
        },
{
    let mut names: Vec<Vec<u8>> = Vec::new();
    let mut node_ports: Vec<NodePort<DynNode>> = Vec::new();
    let ghost empty = NodeTable { names: Seq::empty(), node_ports: Seq::empty() };
    proof {
        assert(texts(names@) =~= Seq::<Seq<u8>>::empty());
    }
    let mut k: usize = 0;
    while k < nodes.len()
        invariant
            k <= nodes@.len(),
            empty == (NodeTable { names: Seq::empty(), node_ports: Seq::empty() }),
            read_nodes(
                texts(nodes@),
                k as int,
                NodeTable { names: texts(names@), node_ports: node_ports@ },
            ) == read_nodes(texts(nodes@), 0, empty),
        decreases nodes@.len() - k,
    {
        let text = nodes[k].as_slice();
        let line = k + 1;
        proof {
            assert(texts(nodes@)[k as int] == text@);
        }
        if text.len() != 0 {
            let colon = match find_colon(text) {
                Some(colon) => colon,
                None => {
                    return Err(Error::InvalidNodeEntry { line });
                },
            };
            let name = vstd::slice::slice_subrange(text, 0, colon);
            let number = match find_name(&names, name) {
                Some(number) => number,
                None => {
                    let ghost before = texts(names@);
                    names.push(vstd::slice::slice_to_vec(name));
                    proof {
                        assert(texts(names@) =~= before.push(name@));
                    }
                    names.len() - 1
                },
            };
            if number > 127 {
                return Err(Error::TooManyNodes { line });
            }
            let port = match read_port(text, colon + 1, text.len()) {
                Some(port) => port,
                None => {
                    return Err(Error::InvalidPortSpec { line });
                },
            };
            node_ports.push(NodePort(DynNode(number as u8), port));
        }
        k += 1;
    }
    let mut lane_list: Vec<Lane> = Vec::new();
    let mut k: usize = 0;
    while k < lanes.len()
        invariant
            k <= lanes@.len(),
            read_nodes(
                texts(nodes@),
                0,
                NodeTable { names: Seq::empty(), node_ports: Seq::empty() },
            ) == Ok::<NodeTable, Error>(
                NodeTable { names: texts(names@), node_ports: node_ports@ },
            ),
            read_lanes(texts(lanes@), k as int, lane_list@) == read_lanes(
                texts(lanes@),
                0,
                Seq::empty(),
            ),
        decreases lanes@.len() - k,
    {
        let text = lanes[k].as_slice();
        let line = k + 1;
        proof {
            assert(texts(lanes@)[k as int] == text@);
        }
        if text.len() != 0 {
            let colon = match find_colon(text) {
                Some(colon) => colon,
                None => {
                    return Err(Error::InvalidLaneEntry { line });
                },
            };
            let a = match read_port(text, 0, colon) {
                Some(port) => port,
                None => {
                    return Err(Error::InvalidPortSpec { line });
                },
            };
            let b = match read_port(text, colon + 1, text.len()) {
                Some(port) => port,
                None => {
                    return Err(Error::InvalidPortSpec { line });
                },
            };
            lane_list.push(Lane(a, b));
        }
        k += 1;
    }
    let mut ports: Vec<Port> = Vec::new();
    let mut k: usize = 0;
    while k < bounce_ports.len()
        invariant
            k <= bounce_ports@.len(),
            read_nodes(
                texts(nodes@),
                0,
                NodeTable { names: Seq::empty(), node_ports: Seq::empty() },
            ) == Ok::<NodeTable, Error>(
                NodeTable { names: texts(names@), node_ports: node_ports@ },
            ),
            read_lanes(texts(lanes@), 0, Seq::empty()) == Ok::<Seq<Lane>, Error>(lane_list@),
            read_bounce_ports(texts(bounce_ports@), k as int, ports@) == read_bounce_ports(
                texts(bounce_ports@),
                0,
                Seq::empty(),
            ),
        decreases bounce_ports@.len() - k,
    {
        let text = bounce_ports[k].as_slice();
        proof {
            assert(texts(bounce_ports@)[k as int] == text@);
            assert(text@.subrange(0, text@.len() as int) =~= text@);
        }
        if text.len() != 0 {
            match read_port(text, 0, text.len()) {
                Some(port) => {
                    ports.push(port);
                },
                None => {
                    return Err(Error::InvalidPortSpec { line: k + 1 });
                },
            }
        }
        k += 1;
    }
    Ok(DynBoardSpec { nodes: names, node_ports, lanes: lane_list, bounce_ports: ports })
}

/// Checks that every port of the board is referred to exactly once.
pub fn sanity_check(board_spec: &DynBoardSpec) -> (r: Result<(), crate::board_spec::Problems>)
    ensures
        r is Ok <==> crate::board_spec::repeated_uses(
            crate::board_spec::port_uses(
                board_spec.node_ports@,
                board_spec.lanes@,
                board_spec.bounce_ports@,
            ),
        ).len() == 0 && crate::board_spec::unused_from(
            crate::board_spec::port_uses(
                board_spec.node_ports@,
                board_spec.lanes@,
                board_spec.bounce_ports@,
            ).to_set(),
            0,
        ).len() == 0,
        r is Ok && board_spec.lanes@.len() <= 127 ==> crate::joining::sound_wiring(
            board_spec.node_ports@,
            board_spec.lanes@,
        ),
        r matches Err(problems) ==> problems.repeated@ == crate::board_spec::repeated_uses(
            crate::board_spec::port_uses(
                board_spec.node_ports@,
                board_spec.lanes@,
                board_spec.bounce_ports@,
            ),
        ) && problems.unused@ == crate::board_spec::unused_from(
            crate::board_spec::port_uses(
                board_spec.node_ports@,
                board_spec.lanes@,
                board_spec.bounce_ports@,
            ).to_set(),
            0,
        ),
{
    crate::board_spec::sanity_check(
        board_spec.node_ports.as_slice(),
        board_spec.lanes.as_slice(),
        board_spec.bounce_ports.as_slice(),
    )
}

} // verus!
