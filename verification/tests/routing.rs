use jumperless::board::v4::{init_board, Board, Node};
use jumperless::board_spec::{BoardSpec, NodePort};
use jumperless::nets_to_connections::nets_to_connections;
use jumperless::set::NodeSet;
use jumperless::{ChipId, ChipStatus, Crosspoint, Dimension, Edge, Error, Lane, Net, NetId, Port};

fn net_id(number: u8) -> NetId {
    NetId::new(number).unwrap()
}

fn net(number: u8, nodes: &[Node]) -> Net<Node> {
    Net { id: net_id(number), nodes: NodeSet::from_slice(nodes) }
}

fn chip(letter: u8) -> ChipId {
    ChipId::from_ascii(letter)
}

fn x(letter: u8, index: u8) -> Port {
    Port::new(chip(letter), Dimension::X, index)
}

fn y(letter: u8, index: u8) -> Port {
    Port::new(chip(letter), Dimension::Y, index)
}

/// Normalizes a list of nets to ease comparison: nets ordered by id.
fn normalize_nets(nets: &mut [Net<Node>]) {
    nets.sort_by_key(|net| net.id.index());
}

fn node_nets_from_chip_status(chip_status: &ChipStatus, board: &Board) -> Vec<Net<Node>> {
    let mut nets: std::collections::HashMap<NetId, Net<Node>> = std::collections::HashMap::new();
    for port in Port::all() {
        if let Some(net_id) = chip_status.get(port) {
            if let Some(node) = board.port_to_node(port) {
                nets.entry(net_id).or_insert(Net::new(net_id)).nodes.insert(node);
            }
        }
    }
    let mut nets: Vec<Net<Node>> = nets.into_values().collect();
    normalize_nets(&mut nets);
    nets
}

fn check_connectivity(chip_status: &ChipStatus, nets: &[Net<Node>], board: &Board) {
    for net in nets {
        assert!(
            chip_status.check_connectivity(net.id, board),
            "Net {:?} is not fully connected",
            net.id
        );
    }
}

fn route(nets: &[Net<Node>]) -> Result<Vec<Crosspoint>, Error> {
    let board = init_board();
    let mut chip_status = ChipStatus::default();
    nets_to_connections(nets, &mut chip_status, &board)?;
    Ok(chip_status.crosspoints().collect())
}

fn test_netlist(nets: &mut [Net<Node>], expected_crosspoints: &[Crosspoint]) {
    // normalize nets, to make comparisons easier
    normalize_nets(nets);

    let board = init_board();

    // create chip status from netlist
    let mut chip_status = ChipStatus::default();
    nets_to_connections(nets, &mut chip_status, &board).unwrap();

    // reconstruct netlist from ChipStatus, and compare it with the input
    let extracted_nets = node_nets_from_chip_status(&chip_status, &board);
    assert_eq!(nets, &extracted_nets[..]);

    // verify that the ChipStatus is sound given the list of nets:
    // each net is fully connected (no disjoint islands)
    check_connectivity(&chip_status, nets, &board);

    // every node port is owned by the net of its node
    for net in nets.iter() {
        for node in net.nodes.iter() {
            let port = board.node_to_port(node).unwrap();
            assert_eq!(chip_status.get(port), Some(net.id));
        }
    }

    // finally verify that the netlist lead to the expected crosspoint connections
    let crosspoints: Vec<_> = chip_status.crosspoints().collect();
    assert_eq!(&crosspoints[..], expected_crosspoints);
}

/// Nets within this test are all either on the same chip, or span two chips
/// with a direct lane between them.
#[test]
fn lib_test_direct_routes() {
    let a = chip(b'A');
    let i = chip(b'I');

    test_netlist(
        &mut [
            // two nodes, on different chips (Ix15, Ay1)
            net(1, &[Node::GND, Node::_2]),
            // single chip (Ay6, Ay7)
            net(2, &[Node::_7, Node::_8]),
        ],
        &[
            // hook up Ay1 to lane leading to Iy0
            Crosspoint { chip: a, x: 0, y: 1, net_id: net_id(1) },
            // hook up first available lane (Ax1) to node at Ay6
            Crosspoint { chip: a, x: 1, y: 6, net_id: net_id(2) },
            // hook the same line up to node at Ay7
            Crosspoint { chip: a, x: 1, y: 7, net_id: net_id(2) },
            // finally connect GND node (Ix15) to lane going to chip A
            Crosspoint { chip: i, x: 15, y: 0, net_id: net_id(1) },
        ],
    );
}

#[test]
fn lib_test_bounce_orthogonal() {
    let a = chip(b'A');
    let l = chip(b'L');
    let net_id = net_id(1);

    test_netlist(
        &mut [
            // Just two chips are involved here, but there is no direct lane to connect them.
            // There is a connection between chip A and chip L though, using Ay0. (Lx8, Ay1)
            net(1, &[Node::_1, Node::_2]),
        ],
        &[
            // connect first free lane on Ax with lane to Ly
            Crosspoint { chip: a, x: 0, y: 0, net_id },
            // connect the same lane on Ax with node at Ay1
            Crosspoint { chip: a, x: 0, y: 1, net_id },
            // connect the L side of the lane with node at Lx8
            Crosspoint { chip: l, x: 8, y: 0, net_id },
        ],
    );
}

#[test]
fn lib_test_bounce_other_chip() {
    let a = chip(b'A');
    let b = chip(b'B');
    let c = chip(b'C');

    test_netlist(
        &mut [
            // exhaust direct lanes between A and B
            net(1, &[Node::_2, Node::_9]),
            net(2, &[Node::_3, Node::_10]),
            // this one will need to be bounced via another chip
            net(3, &[Node::_4, Node::_11]),
        ],
        &[
            Crosspoint { chip: a, x: 2, y: 1, net_id: net_id(1) },
            Crosspoint { chip: a, x: 3, y: 2, net_id: net_id(2) },
            Crosspoint { chip: a, x: 4, y: 3, net_id: net_id(3) },
            Crosspoint { chip: b, x: 0, y: 1, net_id: net_id(1) },
            Crosspoint { chip: b, x: 1, y: 2, net_id: net_id(2) },
            Crosspoint { chip: b, x: 4, y: 3, net_id: net_id(3) },
            Crosspoint { chip: c, x: 0, y: 0, net_id: net_id(3) },
            Crosspoint { chip: c, x: 2, y: 0, net_id: net_id(3) },
        ],
    );
}

/// Connect all nodes on a chip to the same net
#[test]
fn lib_test_all_nodes_on_chip_single_net() {
    let chip = chip(b'D');
    let net_id = net_id(1);
    let x = 0; // first available lane on edge `Dx`

    test_netlist(
        &mut [net(
            1,
            &[Node::_23, Node::_24, Node::_25, Node::_26, Node::_27, Node::_28, Node::_29],
        )],
        &[
            Crosspoint { chip, net_id, x, y: 1 },
            Crosspoint { chip, net_id, x, y: 2 },
            Crosspoint { chip, net_id, x, y: 3 },
            Crosspoint { chip, net_id, x, y: 4 },
            Crosspoint { chip, net_id, x, y: 5 },
            Crosspoint { chip, net_id, x, y: 6 },
            Crosspoint { chip, net_id, x, y: 7 },
        ],
    );
}

#[test]
fn lib_test_multiple_chips() {
    let a = chip(b'A');
    let e = chip(b'E');
    let j = chip(b'J');
    let net_id = net_id(1);

    test_netlist(
        &mut [
            // two nodes on the same chip, two other nodes on other chips each
            // (Jx14, Ay2, Ay3, Ey4)
            net(1, &[Node::SUPPLY_5V, Node::_3, Node::_4, Node::_35]),
        ],
        &[
            // lane to J, with node top3
            Crosspoint { chip: a, net_id, x: 1, y: 2 },
            // lane to J, with node top4
            Crosspoint { chip: a, net_id, x: 1, y: 3 },
            // lane to E, with node top3
            Crosspoint { chip: a, net_id, x: 8, y: 2 },
            // lane to E, with node top4
            Crosspoint { chip: a, net_id, x: 8, y: 3 },
            // lane to A, with node bottom5
            Crosspoint { chip: e, net_id, x: 0, y: 4 },
            // lane to A, with node supply5v
            Crosspoint { chip: j, net_id, x: 14, y: 0 },
        ],
    );
}

#[test]
fn routing_twice_gives_the_same_crosspoints() {
    let nets = [net(1, &[Node::GND, Node::_2]), net(2, &[Node::_7, Node::_8])];
    let first = route(&nets).unwrap();
    let second = route(&nets).unwrap();
    assert_eq!(first.len(), 4);
    assert_eq!(first, second);
}

#[test]
fn an_empty_netlist_closes_no_switch() {
    assert_eq!(route(&[]), Ok(vec![]));
}

#[test]
fn a_net_without_nodes_is_passed_over() {
    let nets = [net(1, &[]), net(2, &[Node::_7, Node::_8])];
    let a = chip(b'A');
    assert_eq!(
        route(&nets),
        Ok(vec![
            Crosspoint { chip: a, x: 0, y: 6, net_id: net_id(2) },
            Crosspoint { chip: a, x: 0, y: 7, net_id: net_id(2) },
        ])
    );
}

#[test]
fn a_node_in_two_nets_is_refused() {
    // Node 2 is wired to Ay1.
    let nets = [net(1, &[Node::_2, Node::_3]), net(2, &[Node::_2, Node::_9])];
    assert_eq!(
        route(&nets),
        Err(Error::PortAlreadyAssigned {
            port: y(b'A', 1),
            existing: net_id(1),
            requested: net_id(2),
        })
    );
}

#[test]
fn more_waiting_edges_than_the_list_holds_are_refused() {
    // Each of these nets lies on a single edge, and waits for a lane.
    let nodes = [
        Node::_2, Node::_9, Node::_16, Node::_23, Node::_32, Node::_39, Node::_46, Node::_53,
    ];
    let mut nets = Vec::new();
    for number in 1..=61u8 {
        let node = <Node as jumperless::Node>::from_id(number);
        nets.push(net(number, &[node]));
    }
    assert!(nodes.len() < nets.len());
    assert_eq!(route(&nets), Err(Error::PendingOverflow { net_id: net_id(61) }));
    assert!(route(&nets[..60]).is_ok() || matches!(route(&nets[..60]), Err(Error::LaneExhaustion { .. })));
}

/// A board of two chips with a single lane between them, and two nodes on
/// each of the chips.
fn small_board() -> jumperless::board::Board<Node, 4, 1, 0> {
    jumperless::board::Board::new(BoardSpec {
        node_ports: [
            NodePort(Node::_1, y(b'A', 1)),
            NodePort(Node::_2, y(b'A', 2)),
            NodePort(Node::_3, y(b'B', 1)),
            NodePort(Node::_4, y(b'B', 2)),
        ],
        lanes: [Lane(x(b'A', 0), x(b'B', 0))],
        bounce_ports: [],
    })
}

#[test]
fn a_netlist_that_needs_more_lanes_than_the_board_has_fails() {
    let board = small_board();
    let ax = Edge::new(chip(b'A'), Dimension::X);

    // One net from chip A to chip B takes the only lane.
    let mut chip_status = ChipStatus::default();
    let nets = [net(1, &[Node::_1, Node::_3])];
    assert_eq!(nets_to_connections(&nets, &mut chip_status, &board), Ok(()));
    assert_eq!(
        chip_status.crosspoints().collect(),
        vec![
            Crosspoint { chip: chip(b'A'), x: 0, y: 1, net_id: net_id(1) },
            Crosspoint { chip: chip(b'B'), x: 0, y: 1, net_id: net_id(1) },
        ]
    );
    assert!(chip_status.check_connectivity(net_id(1), &board));

    // A second net on chip A finds no lane left for its edge.
    let mut chip_status = ChipStatus::default();
    let nets = [net(1, &[Node::_1, Node::_3]), net(2, &[Node::_2])];
    assert_eq!(
        nets_to_connections(&nets, &mut chip_status, &board),
        Err(Error::LaneExhaustion { edge: ax, net_id: net_id(2) })
    );
}

#[test]
fn two_edges_that_no_lanes_join_have_no_bounce_path() {
    let board = small_board();
    // The second net needs chip A and chip B joined, and the lane is taken.
    let mut chip_status = ChipStatus::default();
    let nets = [net(1, &[Node::_1, Node::_3]), net(2, &[Node::_2, Node::_4])];
    assert_eq!(
        nets_to_connections(&nets, &mut chip_status, &board),
        Err(Error::NoBouncePath {
            edge_a: Edge::new(chip(b'A'), Dimension::X),
            edge_b: Edge::new(chip(b'B'), Dimension::X),
            net_id: net_id(2),
        })
    );
}

#[test]
fn a_node_without_a_port_is_refused() {
    let board = small_board();
    let mut chip_status = ChipStatus::default();
    let nets = [net(1, &[Node::_1, Node::GND])];
    assert_eq!(
        nets_to_connections(&nets, &mut chip_status, &board),
        Err(Error::UnmappedNode { node: <Node as jumperless::Node>::id(&Node::GND) })
    );
}

#[test]
fn a_net_that_is_not_joined_fails_the_connectivity_check() {
    let board = init_board();
    let mut chip_status = ChipStatus::default();
    // Node 2 (Ay1) and node 9 (By1) are assigned to the net, but nothing joins them.
    chip_status.set(y(b'A', 1), net_id(1)).unwrap();
    chip_status.set(y(b'B', 1), net_id(1)).unwrap();
    assert!(!chip_status.check_connectivity(net_id(1), &board));
    // A lane between the chips, assigned to the net, joins them.
    chip_status.set_lane(Lane(x(b'A', 2), x(b'B', 0)), net_id(1)).unwrap();
    assert!(chip_status.check_connectivity(net_id(1), &board));
    // A net without any port is not connected.
    assert!(!chip_status.check_connectivity(net_id(2), &board));
}

/// Netlists drawn with a fixed seed: whatever the router accepts is
/// connected, can be read back, and comes out the same a second time.
#[test]
fn accepted_netlists_are_connected_and_can_be_read_back() {
    let board = init_board();
    let mut seed: u64 = 12345;
    let mut next = move || {
        seed ^= seed << 13;
        seed ^= seed >> 7;
        seed ^= seed << 17;
        seed
    };
    let mut accepted = 0;
    for _ in 0..5000 {
        let net_count = 1 + (next() % 8) as usize;
        let mut nets = Vec::new();
        let mut used = std::collections::HashSet::new();
        for _ in 0..net_count {
            let size = 1 + (next() % 9) as usize;
            let mut nodes = Vec::new();
            for _ in 0..size {
                let id = (next() % 98) as u8;
                if used.insert(id) {
                    nodes.push(<Node as jumperless::Node>::from_id(id));
                }
            }
            if !nodes.is_empty() {
                nets.push(net(nets.len() as u8 + 1, &nodes));
            }
        }
        let mut status = ChipStatus::default();
        if nets_to_connections(&nets, &mut status, &board).is_ok() {
            accepted += 1;
            check_connectivity(&status, &nets, &board);
            assert_eq!(node_nets_from_chip_status(&status, &board), nets);
            let mut again = ChipStatus::default();
            assert_eq!(nets_to_connections(&nets, &mut again, &board), Ok(()));
            assert_eq!(again.crosspoints().collect(), status.crosspoints().collect());
        }
    }
    assert!(accepted > 4000);
}
