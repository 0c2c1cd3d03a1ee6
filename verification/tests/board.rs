use jumperless::board::{v4, v5};
use jumperless::board_spec::generator::{parse, DynBoardSpec, Error};
use jumperless::board_spec::{sanity_check, BoardSpec, NodePort, Problems};
use jumperless::{ChipId, Dimension, Lane, Node, Port};

fn x(letter: u8, index: u8) -> Port {
    Port::new(ChipId::from_ascii(letter), Dimension::X, index)
}

fn y(letter: u8, index: u8) -> Port {
    Port::new(ChipId::from_ascii(letter), Dimension::Y, index)
}

fn lines(text: &str) -> Vec<Vec<u8>> {
    text.lines().map(|line| line.as_bytes().to_vec()).collect()
}

#[test]
fn the_board_knows_the_port_of_every_node() {
    let board = v4::init_board();
    assert_eq!(board.node_to_port(v4::Node::GND), Some(x(b'I', 15)));
    assert_eq!(board.node_to_port(v4::Node::_1), Some(x(b'L', 8)));
    assert_eq!(board.node_to_port(v4::Node::_2), Some(y(b'A', 1)));
    assert_eq!(board.node_to_port(v4::Node::SUPPLY_5V), Some(x(b'J', 14)));
    assert_eq!(board.port_to_node(y(b'A', 1)), Some(v4::Node::_2));
    assert_eq!(board.port_to_node(x(b'A', 0)), None);
    assert_eq!(board.lanes().len(), 84);
    assert_eq!(board.bounce_ports().len(), 0);
    for id in 0..98u8 {
        let node = <v4::Node as Node>::from_id(id);
        assert_eq!(node.id(), id);
        assert!(board.node_to_port(node).is_some(), "{:?}", node);
    }
}

#[test]
fn the_board_knows_the_lane_of_every_lane_port() {
    let board = v4::init_board();
    let lane = board.port_to_lane(x(b'A', 0)).unwrap();
    assert_eq!((lane.0, lane.1), (x(b'A', 0), y(b'I', 0)));
    assert_eq!(board.port_to_lane_index(x(b'A', 0)), Some(0));
    assert_eq!(board.port_to_lane_index(y(b'I', 0)), Some(0));
    assert_eq!(board.port_map().get_lane_index(y(b'I', 0)), Some(0));
    assert!(board.port_to_lane(y(b'A', 1)).is_none());
    for (index, lane) in board.lanes().iter().enumerate() {
        assert_eq!(board.port_to_lane_index(lane.0), Some(index));
        assert_eq!(board.port_to_lane_index(lane.1), Some(index));
        assert_eq!(board.port_map().get_node(lane.0), None);
        assert_eq!(board.port_to_lane(lane.0).unwrap().opposite(lane.0), lane.1);
    }
}

#[test]
fn both_boards_use_every_port_exactly_once() {
    let spec = v4::board_spec();
    assert_eq!(sanity_check(&spec.node_ports, &spec.lanes, &spec.bounce_ports), Ok(()));
    let spec = v5::board_spec();
    assert_eq!(spec.bounce_ports.len(), 8);
    assert_eq!(sanity_check(&spec.node_ports, &spec.lanes, &spec.bounce_ports), Ok(()));
}

#[test]
fn the_sanity_check_names_what_is_wrong() {
    let spec: BoardSpec<v4::Node, 2, 1, 1> = BoardSpec {
        node_ports: [NodePort(v4::Node::_1, x(b'A', 0)), NodePort(v4::Node::_2, x(b'A', 2))],
        lanes: [Lane(x(b'A', 2), x(b'A', 0))],
        bounce_ports: [x(b'A', 1)],
    };
    let Problems { repeated, unused } =
        sanity_check(&spec.node_ports, &spec.lanes, &spec.bounce_ports).unwrap_err();
    assert_eq!(repeated, vec![x(b'A', 2), x(b'A', 0)]);
    assert_eq!(unused.len(), 288 - 3);
    assert_eq!(unused[0], x(b'A', 3));
    assert_eq!(unused[284], y(b'L', 7));
}

#[test]
fn node_names_can_be_read_back() {
    for id in 0..98u8 {
        let node = <v4::Node as Node>::from_id(id);
        assert_eq!(node.as_str().parse(), Ok(node));
    }
    for id in 0..107u8 {
        let node = <v5::Node as Node>::from_id(id);
        assert_eq!(node.as_str().parse(), Ok(node));
    }
    assert_eq!(v4::Node::_1.as_str(), "1");
    assert_eq!(v4::Node::GND.as_str(), "GND");
    assert_eq!("SUPPLY_5V".parse(), Ok(v4::Node::SUPPLY_5V));
    assert_eq!("60".parse(), Ok(v4::Node::_60));
    assert_eq!("61".parse::<v4::Node>(), Err(v4::InvalidNode));
    assert_eq!("gnd".parse::<v4::Node>(), Err(v4::InvalidNode));
    assert_eq!("".parse::<v4::Node>(), Err(v4::InvalidNode));
    assert_eq!("TOP_RAIL".parse(), Ok(v5::Node::TOP_RAIL));
    assert_eq!("TOP_RAIL".parse::<v4::Node>(), Err(v4::InvalidNode));
}

#[test]
fn a_board_description_is_read_line_by_line() {
    let spec: DynBoardSpec = parse(
        &lines("GND:Ix15\n1:Lx8\n\nGND:Ky3\n2:Ay1\n"),
        &lines("Ax0:Iy0\nAx2:BX0\n"),
        &lines("Ay0\n\nLy7\n"),
    )
    .unwrap();
    assert_eq!(spec.nodes, vec![b"GND".to_vec(), b"1".to_vec(), b"2".to_vec()]);
    let node_ports: Vec<(u8, Port)> =
        spec.node_ports.iter().map(|NodePort(node, port)| (node.id(), *port)).collect();
    assert_eq!(
        node_ports,
        vec![(0, x(b'I', 15)), (1, x(b'L', 8)), (0, y(b'K', 3)), (2, y(b'A', 1))]
    );
    let lanes: Vec<(Port, Port)> = spec.lanes.iter().map(|lane| (lane.0, lane.1)).collect();
    assert_eq!(lanes, vec![(x(b'A', 0), y(b'I', 0)), (x(b'A', 2), x(b'B', 0))]);
    assert_eq!(spec.bounce_ports, vec![y(b'A', 0), y(b'L', 7)]);
    assert!(jumperless::board_spec::generator::sanity_check(&spec).is_err());
}

#[test]
fn a_bad_line_of_a_board_description_is_named() {
    let none: Vec<Vec<u8>> = Vec::new();
    assert_eq!(
        parse(&lines("GND:Ix15\nGND\n"), &none, &none).unwrap_err(),
        Error::InvalidNodeEntry { line: 2 }
    );
    assert_eq!(
        parse(&lines("\n\nGND:Ix16\n"), &none, &none).unwrap_err(),
        Error::InvalidPortSpec { line: 3 }
    );
    assert_eq!(
        parse(&lines("GND: Ix15\n"), &none, &none).unwrap_err(),
        Error::InvalidPortSpec { line: 1 }
    );
    assert_eq!(
        parse(&none, &lines("Ax0:Iy0\nAx0 Iy0\n"), &none).unwrap_err(),
        Error::InvalidLaneEntry { line: 2 }
    );
    assert_eq!(
        parse(&none, &lines("Ax0:Iy8\n"), &none).unwrap_err(),
        Error::InvalidPortSpec { line: 1 }
    );
    assert_eq!(
        parse(&none, &lines("Mx0:Iy0\n"), &none).unwrap_err(),
        Error::InvalidPortSpec { line: 1 }
    );
    assert_eq!(
        parse(&none, &none, &lines("Ay0\nAy0:Ay1\n")).unwrap_err(),
        Error::InvalidPortSpec { line: 2 }
    );
    // the errors of the nodes come first
    assert_eq!(
        parse(&lines("GND"), &lines("Ax0"), &lines("Zz0")).unwrap_err(),
        Error::InvalidNodeEntry { line: 1 }
    );
}

#[test]
fn a_board_description_names_at_most_128_nodes() {
    let mut text = String::new();
    for number in 0..128 {
        text.push_str(&format!("N{}:Ax0\n", number));
    }
    let none: Vec<Vec<u8>> = Vec::new();
    let spec = parse(&lines(&text), &none, &none).unwrap();
    assert_eq!(spec.nodes.len(), 128);
    assert_eq!(spec.node_ports[127].0.id(), 127);
    text.push_str("N5:Ax1\n");
    assert_eq!(parse(&lines(&text), &none, &none).unwrap().node_ports[128].0.id(), 5);
    text.push_str("N128:Ax0\n");
    assert_eq!(
        parse(&lines(&text), &none, &none).unwrap_err(),
        Error::TooManyNodes { line: 130 }
    );
}

#[test]
fn the_description_of_a_board_gives_the_board() {
    // Write the wiring of the board out, and read it back.
    let spec = v4::board_spec();
    let mut nodes = String::new();
    for NodePort(node, port) in &spec.node_ports {
        nodes.push_str(&format!("{}:{}\n", node.as_str(), port_name(*port)));
    }
    let mut lanes = String::new();
    for lane in &spec.lanes {
        lanes.push_str(&format!("{}:{}\n", port_name(lane.0), port_name(lane.1)));
    }
    let none: Vec<Vec<u8>> = Vec::new();
    let read = parse(&lines(&nodes), &lines(&lanes), &none).unwrap();
    assert_eq!(jumperless::board_spec::generator::sanity_check(&read), Ok(()));
    assert_eq!(read.node_ports.len(), 120);
    assert_eq!(read.lanes.len(), 84);
    for (k, NodePort(node, port)) in spec.node_ports.iter().enumerate() {
        assert_eq!(read.node_ports[k].1, *port);
        assert_eq!(read.nodes[read.node_ports[k].0.id() as usize], node.as_str().as_bytes());
    }
}

fn port_name(port: Port) -> String {
    let dimension = if port.dimension() == Dimension::X { 'x' } else { 'y' };
    format!("{}{}{}", port.chip_id().ascii() as char, dimension, port.index())
}
