use jumperless::board::v4::{init_board, Node};
use jumperless::{
    ChipId, ChipStatus, Crosspoint, CrosspointConfig, Dimension, Error, Lane, NetId, Port,
};

fn net_id(number: u8) -> NetId {
    NetId::new(number).unwrap()
}

fn x(letter: u8, index: u8) -> Port {
    Port::new(ChipId::from_ascii(letter), Dimension::X, index)
}

fn y(letter: u8, index: u8) -> Port {
    Port::new(ChipId::from_ascii(letter), Dimension::Y, index)
}

#[test]
fn a_port_is_assigned_only_once() {
    let mut status = ChipStatus::default();
    assert!(status.available(x(b'C', 3)));
    assert_eq!(status.get(x(b'C', 3)), None);
    assert_eq!(status.set(x(b'C', 3), net_id(4)), Ok(()));
    assert!(!status.available(x(b'C', 3)));
    assert_eq!(status.get(x(b'C', 3)), Some(net_id(4)));
    // the port of the same index on the other edge is another port
    assert_eq!(status.get(y(b'C', 3)), None);
    assert_eq!(status.get(x(b'D', 3)), None);
    // not even the same net can be assigned again
    assert_eq!(
        status.set(x(b'C', 3), net_id(4)),
        Err(Error::PortAlreadyAssigned {
            port: x(b'C', 3),
            existing: net_id(4),
            requested: net_id(4),
        })
    );
    assert_eq!(
        status.set(x(b'C', 3), net_id(5)),
        Err(Error::PortAlreadyAssigned {
            port: x(b'C', 3),
            existing: net_id(4),
            requested: net_id(5),
        })
    );
    assert_eq!(status.get(x(b'C', 3)), Some(net_id(4)));
}

#[test]
fn set_lane_assigns_both_ends() {
    let mut status = ChipStatus::default();
    let lane = Lane(x(b'A', 2), x(b'B', 0));
    assert_eq!(status.set_lane(lane, net_id(9)), Ok(()));
    assert_eq!(status.get(x(b'A', 2)), Some(net_id(9)));
    assert_eq!(status.get(x(b'B', 0)), Some(net_id(9)));
    // the second end is assigned already: the first end is assigned, and the error names the second
    let other = Lane(x(b'A', 3), x(b'B', 0));
    assert_eq!(
        status.set_lane(other, net_id(2)),
        Err(Error::PortAlreadyAssigned {
            port: x(b'B', 0),
            existing: net_id(9),
            requested: net_id(2),
        })
    );
    assert_eq!(status.get(x(b'A', 3)), Some(net_id(2)));
}

#[test]
fn clear_removes_every_assignment() {
    let mut status = ChipStatus::default();
    for port in Port::all() {
        status.set(port, net_id(1)).unwrap();
    }
    assert_eq!(status.crosspoints().collect().len(), 12 * 16 * 8);
    status.clear();
    for port in Port::all() {
        assert_eq!(status.get(port), None);
    }
    assert_eq!(status.crosspoints().collect(), vec![]);
}

#[test]
fn crosspoints_come_chip_by_chip_column_by_column_row_by_row() {
    let mut status = ChipStatus::default();
    let a = ChipId::from_ascii(b'A');
    let b = ChipId::from_ascii(b'B');
    let l = ChipId::from_ascii(b'L');
    // the last column of chip A, and the first column of chip B
    status.set(x(b'A', 15), net_id(1)).unwrap();
    status.set(y(b'A', 0), net_id(1)).unwrap();
    status.set(y(b'A', 7), net_id(1)).unwrap();
    status.set(y(b'A', 3), net_id(2)).unwrap();
    status.set(x(b'B', 0), net_id(3)).unwrap();
    status.set(y(b'B', 0), net_id(3)).unwrap();
    status.set(y(b'B', 5), net_id(3)).unwrap();
    status.set(x(b'B', 1), net_id(4)).unwrap();
    status.set(x(b'L', 15), net_id(5)).unwrap();
    status.set(y(b'L', 7), net_id(5)).unwrap();
    let expected = vec![
        Crosspoint { chip: a, x: 15, y: 0, net_id: net_id(1) },
        Crosspoint { chip: a, x: 15, y: 7, net_id: net_id(1) },
        Crosspoint { chip: b, x: 0, y: 0, net_id: net_id(3) },
        Crosspoint { chip: b, x: 0, y: 5, net_id: net_id(3) },
        Crosspoint { chip: l, x: 15, y: 7, net_id: net_id(5) },
    ];
    assert_eq!(status.crosspoints().collect(), expected);

    let mut iterator = status.crosspoints();
    assert_eq!(iterator.next(), Some(expected[0]));
    assert_eq!(iterator.next(), Some(expected[1]));
    assert_eq!(iterator.collect(), expected[2..].to_vec());
    assert_eq!(iterator.next(), None);
    assert_eq!(iterator.next(), None);
}

#[test]
fn crosspoint_config_holds_one_bit_for_each_switch() {
    let a = ChipId::from_ascii(b'A');
    let i = ChipId::from_ascii(b'I');
    let l = ChipId::from_ascii(b'L');
    let first = Crosspoint { chip: a, x: 0, y: 1, net_id: net_id(1) };
    let second = Crosspoint { chip: i, x: 15, y: 0, net_id: net_id(1) };
    let third = Crosspoint { chip: l, x: 15, y: 7, net_id: net_id(2) };
    let fourth = Crosspoint { chip: a, x: 0, y: 6, net_id: net_id(2) };
    let mut config = CrosspointConfig::from_crosspoints(&[first, second, third]);
    assert!(config.get(first));
    assert!(config.get(second));
    assert!(config.get(third));
    assert!(!config.get(fourth));
    // the net does not matter
    assert!(config.get(Crosspoint { net_id: net_id(7), ..first }));
    assert!(!config.get(Crosspoint { x: 1, ..first }));
    assert!(!config.get(Crosspoint { y: 0, ..first }));

    let mut expected = [b'0'; 384];
    // bit (chip * 16 + x) * 8 + y: byte 0 holds 0x02, byte 143 holds 0x01, byte 191 holds 0x80
    expected[1] = b'2';
    expected[143 * 2 + 1] = b'1';
    expected[191 * 2] = b'8';
    assert_eq!(config.to_hex_bytes(), expected);

    config.set(fourth);
    assert!(config.get(fourth));
    expected[0] = b'4'; // byte 0 holds 0x42
    assert_eq!(config.to_hex_bytes(), expected);

    config.clear(first);
    assert!(!config.get(first));
    assert!(config.get(fourth));
    expected[1] = b'0';
    assert_eq!(config.to_hex_bytes(), expected);
}

#[test]
fn hex_digits_are_upper_case() {
    let chip = ChipId::from_ascii(b'B');
    let mut crosspoints = Vec::new();
    for y in [0, 1, 3, 5, 6, 7] {
        crosspoints.push(Crosspoint { chip, x: 2, y, net_id: net_id(1) });
    }
    // byte 18 holds 0b1110_1011
    let config = CrosspointConfig::from_crosspoints(&crosspoints);
    let hex = config.to_hex_bytes();
    assert_eq!(&hex[36..38], b"EB");
    assert!(hex.iter().enumerate().all(|(i, digit)| i == 36 || i == 37 || *digit == b'0'));
}

#[test]
fn the_config_of_a_routed_netlist_has_its_crosspoints() {
    let board = init_board();
    let mut status = ChipStatus::default();
    let nets = [jumperless::Net {
        id: net_id(1),
        nodes: jumperless::set::NodeSet::from_slice(&[Node::GND, Node::_2]),
    }];
    jumperless::nets_to_connections::nets_to_connections(&nets, &mut status, &board).unwrap();
    let crosspoints = status.crosspoints().collect();
    let config = CrosspointConfig::from_crosspoints(&crosspoints);
    let hex = config.to_hex_bytes();
    let text = core::str::from_utf8(&hex).unwrap();
    // A(0,1): byte 0 is 0x02; I(15,0): byte 143 is 0x01
    assert_eq!(&text[0..2], "02");
    assert_eq!(&text[286..288], "01");
    assert_eq!(text.bytes().filter(|digit| *digit != b'0').count(), 2);
}
