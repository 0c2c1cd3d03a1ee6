use jumperless::{ChipId, Dimension, Edge, Lane, NetId, Port};

#[test]
fn chips_go_by_index_and_by_letter() {
    for index in 0..12usize {
        let chip = ChipId::from_index(index);
        assert_eq!(chip.index(), index);
        assert_eq!(chip.ascii(), b'A' + index as u8);
        assert_eq!(ChipId::from_ascii(chip.ascii()), chip);
        assert_eq!(ChipId::try_from_ascii(chip.ascii()), Some(chip));
    }
    assert_eq!(ChipId::try_from_ascii(b'A' - 1), None);
    assert_eq!(ChipId::try_from_ascii(b'M'), None);
    assert_eq!(ChipId::try_from_ascii(b'a'), None);
    assert_eq!(ChipId::from_ascii(b'L').index(), 11);
    let chip = ChipId::from_ascii(b'E');
    assert_eq!(chip.port_x(15), Port::new(chip, Dimension::X, 15));
    assert_eq!(chip.port_y(7), Port::new(chip, Dimension::Y, 7));
}

#[test]
fn dimensions_are_orthogonal_to_each_other() {
    assert_eq!(Dimension::X.orthogonal(), Dimension::Y);
    assert_eq!(Dimension::Y.orthogonal(), Dimension::X);
    assert_eq!(Dimension::X.index(), 0);
    assert_eq!(Dimension::Y.index(), 1);
    assert_eq!(Dimension::from_index(0), Dimension::X);
    assert_eq!(Dimension::from_index(1), Dimension::Y);
    assert_eq!(Dimension::X.port_count(), 16);
    assert_eq!(Dimension::Y.port_count(), 8);
}

#[test]
fn an_edge_has_the_ports_of_its_side() {
    let chip = ChipId::from_ascii(b'A');
    let ax = Edge::new(chip, Dimension::X);
    let ay = Edge::new(chip, Dimension::Y);
    assert_eq!(ax.orthogonal(), ay);
    assert_eq!(ax, ay.orthogonal());
    assert_eq!(ax.chip_id(), chip);
    assert_eq!(ay.dimension(), Dimension::Y);
    let ports = ax.ports();
    assert_eq!(ports.len(), 16);
    assert_eq!(ports[0], Port::new(chip, Dimension::X, 0));
    assert_eq!(ports[15], Port::new(chip, Dimension::X, 15));
    let ports = ay.ports();
    assert_eq!(ports.len(), 8);
    assert_eq!(ports[7], Port::new(chip, Dimension::Y, 7));
    assert!(ports.iter().all(|port| port.edge() == ay));
}

#[test]
fn a_port_has_a_chip_a_dimension_and_an_index() {
    let chip = ChipId::from_ascii(b'K');
    let port = Port::new(chip, Dimension::X, 9);
    assert_eq!(port.chip_id(), chip);
    assert_eq!(port.dimension(), Dimension::X);
    assert_eq!(port.index(), 9);
    assert_eq!(port.edge(), Edge::new(chip, Dimension::X));
}

#[test]
fn a_lane_joins_two_edges() {
    let a = ChipId::from_ascii(b'A');
    let b = ChipId::from_ascii(b'B');
    let lane = Lane(Port::new(a, Dimension::X, 2), Port::new(b, Dimension::Y, 0));
    let ax = Edge::new(a, Dimension::X);
    let ay = Edge::new(a, Dimension::Y);
    let bx = Edge::new(b, Dimension::X);
    let by = Edge::new(b, Dimension::Y);
    assert!(lane.touches(ax));
    assert!(lane.touches(by));
    assert!(!lane.touches(ay));
    assert!(!lane.touches(bx));
    assert!(lane.connects(ax, by));
    assert!(lane.connects(by, ax));
    assert!(!lane.connects(ax, ax));
    assert!(!lane.connects(ax, bx));
    assert!(!lane.connects(ay, by));
    assert_eq!(lane.opposite(Port::new(a, Dimension::X, 2)), Port::new(b, Dimension::Y, 0));
    assert_eq!(lane.opposite(Port::new(b, Dimension::Y, 0)), Port::new(a, Dimension::X, 2));
}

#[test]
fn nets_one_to_seven_are_special() {
    assert_eq!(NetId::new(0), None);
    for number in 1..=255u8 {
        let id = NetId::new(number).unwrap();
        assert_eq!(id.number(), number);
        assert_eq!(id.index(), number as usize - 1);
        assert_eq!(NetId::from_index(id.index()), id);
        assert_eq!(id.is_special(), number <= 7);
    }
}
