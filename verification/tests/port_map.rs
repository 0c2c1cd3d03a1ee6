use jumperless::board::v4::Node;
use jumperless::map::{PortMap, PortMapEntry};
use jumperless::{ChipId, Dimension, Port};

#[test]
fn layout_test_port_use_none() {
    let none: PortMapEntry<Node> = PortMapEntry::new_none();
    assert_eq!(none.node(), None);
    assert_eq!(none.lane_index(), None);
}

#[test]
fn layout_test_port_use_node() {
    let node = PortMapEntry::new_node(Node::SUPPLY_5V);
    assert_eq!(node.node(), Some(Node::SUPPLY_5V));
    assert_eq!(node.lane_index(), None);
}

#[test]
fn layout_test_port_use_index() {
    let lane_index: PortMapEntry<Node> = PortMapEntry::new_lane_index(27);
    assert_eq!(lane_index.node(), None);
    assert_eq!(lane_index.lane_index(), Some(27));
}

#[test]
fn port_map_keeps_the_last_entry_of_a_port() {
    let port = Port::new(ChipId::from_ascii(b'F'), Dimension::Y, 3);
    let other = Port::new(ChipId::from_ascii(b'F'), Dimension::X, 3);
    let mut map: PortMap<Node> = PortMap::default();
    assert_eq!(map.get_node(port), None);
    assert_eq!(map.get_lane_index(port), None);
    map.set_node(port, Node::GND);
    assert_eq!(map.get_node(port), Some(Node::GND));
    assert_eq!(map.get_lane_index(port), None);
    assert_eq!(map.get_node(other), None);
    map.set_lane_index(port, 126);
    assert_eq!(map.get_node(port), None);
    assert_eq!(map.get_lane_index(port), Some(126));
    map.set_lane_index(other, 0);
    assert_eq!(map.get_lane_index(other), Some(0));
    assert_eq!(map.get_lane_index(port), Some(126));
}
