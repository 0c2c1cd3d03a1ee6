use jumperless::port::InvalidPort;
use jumperless::{ChipId, Dimension, Port};

#[test]
fn test_from_str() {
    let a = ChipId::from_ascii(b'A');
    let l = ChipId::from_ascii(b'L');
    assert_eq!("Ax0".parse(), Ok(Port::new(a, Dimension::X, 0)));
    assert_eq!("AX0".parse(), Ok(Port::new(a, Dimension::X, 0)));
    assert_eq!("Ax1".parse(), Ok(Port::new(a, Dimension::X, 1)));
    assert_eq!("Ax15".parse(), Ok(Port::new(a, Dimension::X, 15)));
    assert_eq!("Ly7".parse(), Ok(Port::new(l, Dimension::Y, 7)));
    assert_eq!("LY7".parse(), Ok(Port::new(l, Dimension::Y, 7)));

    // chip out of range
    assert_eq!("Mx0".parse::<Port>(), Err(InvalidPort));
    // dimension out of range
    assert_eq!("Az0".parse::<Port>(), Err(InvalidPort));
    // X index out of range
    assert_eq!("Ax16".parse::<Port>(), Err(InvalidPort));
    // Y index out of range
    assert_eq!("Ay8".parse::<Port>(), Err(InvalidPort));
}

#[test]
fn parse_follows_the_integer_syntax() {
    let b = ChipId::from_ascii(b'B');
    assert_eq!(Port::parse(b"Bx+7"), Ok(Port::new(b, Dimension::X, 7)));
    assert_eq!(Port::parse(b"Bx007"), Ok(Port::new(b, Dimension::X, 7)));
    assert_eq!(Port::parse(b"By"), Err(InvalidPort));
    assert_eq!(Port::parse(b"By+"), Err(InvalidPort));
    assert_eq!(Port::parse(b"By-1"), Err(InvalidPort));
    assert_eq!(Port::parse(b"By 1"), Err(InvalidPort));
    assert_eq!(Port::parse(b"Bx256"), Err(InvalidPort));
    assert_eq!(Port::parse(b"Bx99999999999999999999"), Err(InvalidPort));
    assert_eq!(Port::parse(b"B"), Err(InvalidPort));
    assert_eq!(Port::parse(b""), Err(InvalidPort));
}

#[test]
fn parse_agrees_with_the_standard_integer_parser() {
    for text in ["0", "7", "+7", "15", "016", "255", "256", "+", "", "-0", "1a", "٣"] {
        let expected = text.parse::<u8>().ok().filter(|index| *index < 16);
        let name = format!("Cx{}", text);
        let port = Port::parse(name.as_bytes()).ok();
        assert_eq!(port.map(|port| port.index()), expected, "index {:?}", text);
    }
}

#[test]
fn all_ports_come_in_the_order_of_their_addresses() {
    let ports = Port::all();
    assert_eq!(ports.len(), 24 * 12);
    assert_eq!(ports[0], Port::new(ChipId::from_ascii(b'A'), Dimension::X, 0));
    assert_eq!(ports[4], Port::new(ChipId::from_ascii(b'A'), Dimension::X, 4));
    assert_eq!(ports[16], Port::new(ChipId::from_ascii(b'A'), Dimension::Y, 0));
    assert_eq!(ports[24], Port::new(ChipId::from_ascii(b'B'), Dimension::X, 0));
    assert_eq!(ports[287], Port::new(ChipId::from_ascii(b'L'), Dimension::Y, 7));
}

#[test]
fn port_edge_drops_the_index() {
    let port = Port::new(ChipId::from_ascii(b'C'), Dimension::Y, 4);
    assert_eq!(port.edge(), jumperless::Edge::new(ChipId::from_ascii(b'C'), Dimension::Y));
}
