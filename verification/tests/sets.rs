use jumperless::board::v4::Node;
use jumperless::set::{LaneSet, NodeSet, PortSet};
use jumperless::{ChipId, Dimension, Edge, Lane, Port};

fn x(letter: u8, index: u8) -> Port {
    Port::new(ChipId::from_ascii(letter), Dimension::X, index)
}

fn y(letter: u8, index: u8) -> Port {
    Port::new(ChipId::from_ascii(letter), Dimension::Y, index)
}

#[test]
fn port_set_holds_what_was_inserted() {
    let mut set = PortSet::empty();
    for port in Port::all() {
        assert!(!set.contains(port));
    }
    set.insert(x(b'A', 0));
    set.insert(y(b'L', 7));
    set.insert(y(b'C', 0));
    assert!(set.contains(x(b'A', 0)));
    assert!(set.contains(y(b'L', 7)));
    assert!(set.contains(y(b'C', 0)));
    assert!(!set.contains(x(b'C', 0)));
    assert!(!set.contains(x(b'C', 15)));
    assert!(!set.contains(x(b'D', 0)));
    assert_eq!(Port::all().into_iter().filter(|port| set.contains(*port)).count(), 3);
    set.remove(y(b'C', 0));
    assert!(!set.contains(y(b'C', 0)));
    assert!(set.contains(x(b'A', 0)));
    set.remove(y(b'C', 0));
    set.insert(x(b'A', 0));
    assert_eq!(Port::all().into_iter().filter(|port| set.contains(*port)).count(), 2);
}

#[test]
fn full_port_set_holds_every_port() {
    let full = PortSet::full();
    for port in Port::all() {
        assert!(full.contains(port));
    }
    assert!(full == PortSet::full());
    assert!(full != PortSet::empty());
}

#[test]
fn is_superset_compares_the_members() {
    let mut small = PortSet::empty();
    let mut large = PortSet::empty();
    assert!(small.is_superset(&large));
    small.insert(y(b'B', 3));
    large.insert(y(b'B', 3));
    large.insert(x(b'K', 9));
    assert!(large.is_superset(&small));
    assert!(!small.is_superset(&large));
    assert!(large.is_superset(&large));
    assert!(PortSet::full().is_superset(&large));
    assert!(!large.is_superset(&PortSet::full()));
    assert!(large.is_superset(&PortSet::empty()));
    small.insert(x(b'K', 8));
    assert!(!large.is_superset(&small));
}

#[test]
fn node_set_counts_and_lists_its_nodes() {
    let mut set: NodeSet<Node> = NodeSet::default();
    assert!(set.is_empty());
    assert_eq!(set.len(), 0);
    assert_eq!(set.iter(), vec![]);
    set.insert(Node::GND);
    set.insert(Node::_1);
    set.insert(Node::RP_GPIO0);
    set.insert(Node::_1);
    assert!(!set.is_empty());
    assert_eq!(set.len(), 3);
    assert!(set.contains(Node::GND));
    assert!(!set.contains(Node::_2));
    // by ascending identifier: 0, 79, 97
    assert_eq!(set.iter(), vec![Node::_1, Node::GND, Node::RP_GPIO0]);
    set.remove(Node::GND);
    set.remove(Node::_60);
    assert_eq!(set.iter(), vec![Node::_1, Node::RP_GPIO0]);
    assert_eq!(set.len(), 2);

    let taken = set.take();
    assert!(set.is_empty());
    assert_eq!(set.len(), 0);
    assert_eq!(taken.iter(), vec![Node::_1, Node::RP_GPIO0]);
    assert!(taken == NodeSet::from_slice(&[Node::RP_GPIO0, Node::_1, Node::_1]));
    assert!(set == NodeSet::default());
}

#[test]
fn lane_set_takes_the_first_lane_that_matches() {
    let lanes = [
        Lane(x(b'A', 0), y(b'I', 0)),
        Lane(x(b'A', 2), x(b'B', 0)),
        Lane(x(b'A', 3), x(b'B', 1)),
        Lane(x(b'B', 2), x(b'C', 2)),
    ];
    let ax = Edge::new(ChipId::from_ascii(b'A'), Dimension::X);
    let bx = Edge::new(ChipId::from_ascii(b'B'), Dimension::X);
    let cx = Edge::new(ChipId::from_ascii(b'C'), Dimension::X);
    let mut set = LaneSet::new(&lanes);
    assert_eq!(set.iter().len(), 4);
    assert!(set.has_index(1));

    let taken = set.take(|lane| lane.connects(bx, ax)).unwrap();
    assert_eq!((taken.0, taken.1), (x(b'A', 2), x(b'B', 0)));
    assert!(!set.has_index(1));
    assert!(set.has_index(0) && set.has_index(2) && set.has_index(3));

    let taken = set.take(|lane| lane.connects(ax, bx)).unwrap();
    assert_eq!((taken.0, taken.1), (x(b'A', 3), x(b'B', 1)));
    assert!(set.take(|lane| lane.connects(ax, bx)).is_none());
    assert!(set.take(|lane| lane.connects(ax, cx)).is_none());

    let left = set.iter();
    assert_eq!(left.len(), 2);
    assert_eq!((left[0].0, left[0].1), (x(b'A', 0), y(b'I', 0)));
    assert_eq!((left[1].0, left[1].1), (x(b'B', 2), x(b'C', 2)));

    let taken = set.take(|lane| lane.touches(bx)).unwrap();
    assert_eq!((taken.0, taken.1), (x(b'B', 2), x(b'C', 2)));
    set.clear_index(0);
    assert!(!set.has_index(0));
    assert!(set.take(|_| true).is_none());
    assert_eq!(set.iter().len(), 0);
    // the marks of lanes that the list does not have are untouched
    assert!(set.has_index(4));
    assert!(set.has_index(127));
}
