use jumperless::set::EdgeSet;
use jumperless::{ChipId, Dimension, Edge};

#[test]
fn test_empty() {
    let edges = EdgeSet::empty();
    assert_eq!(edges.iter().first().copied(), None);
}

#[test]
fn test_single_edge() {
    let mut edges = EdgeSet::empty();
    let edge = Edge::new(ChipId::from_ascii(b'C'), Dimension::X);
    edges.insert(edge);
    let members = edges.iter();
    let mut iter = members.iter().copied();
    assert_eq!(iter.next(), Some(edge));
    assert_eq!(iter.next(), None);

    let mut edges = EdgeSet::empty();
    let edge = Edge::new(ChipId::from_ascii(b'C'), Dimension::Y);
    edges.insert(edge);
    let members = edges.iter();
    let mut iter = members.iter().copied();
    assert_eq!(iter.next(), Some(edge));
    assert_eq!(iter.next(), None);

    let mut edges = EdgeSet::empty();
    let edge = Edge::new(ChipId::from_ascii(b'A'), Dimension::X);
    edges.insert(edge);
    let members = edges.iter();
    let mut iter = members.iter().copied();
    assert_eq!(iter.next(), Some(edge));
    assert_eq!(iter.next(), None);
}

#[test]
fn test_multiple_edges() {
    let mut edges = EdgeSet::empty();
    let ax = Edge::new(ChipId::from_ascii(b'A'), Dimension::X);
    let ay = Edge::new(ChipId::from_ascii(b'A'), Dimension::Y);
    let iy = Edge::new(ChipId::from_ascii(b'I'), Dimension::Y);
    edges.insert(ax);
    edges.insert(ay);
    edges.insert(iy);
    let members = edges.iter();
    let mut iter = members.iter().copied();
    assert_eq!(iter.next(), Some(ax));
    assert_eq!(iter.next(), Some(ay));
    assert_eq!(iter.next(), Some(iy));
    assert_eq!(iter.next(), None);
}

#[test]
fn test_remove() {
    let mut edges = EdgeSet::empty();
    let ax = Edge::new(ChipId::from_ascii(b'A'), Dimension::X);
    let ay = Edge::new(ChipId::from_ascii(b'A'), Dimension::Y);
    let iy = Edge::new(ChipId::from_ascii(b'I'), Dimension::Y);
    edges.insert(ax);
    edges.insert(ay);
    edges.insert(iy);
    edges.remove(ay);
    let members = edges.iter();
    let mut iter = members.iter().copied();
    assert_eq!(iter.next(), Some(ax));
    assert_eq!(iter.next(), Some(iy));
    assert_eq!(iter.next(), None);
}

#[test]
fn test_pop_and_len() {
    let mut edges = EdgeSet::empty();
    let ax = Edge::new(ChipId::from_ascii(b'A'), Dimension::X);
    let ay = Edge::new(ChipId::from_ascii(b'A'), Dimension::Y);
    let iy = Edge::new(ChipId::from_ascii(b'I'), Dimension::Y);
    edges.insert(ax);
    edges.insert(ay);
    edges.insert(iy);
    assert_eq!(edges.len(), 3);
    assert_eq!(edges.pop(), Some(ax));
    assert_eq!(edges.len(), 2);
    assert_eq!(edges.pop(), Some(ay));
    assert_eq!(edges.len(), 1);
    assert_eq!(edges.pop(), Some(iy));
    assert_eq!(edges.len(), 0);
    assert_eq!(edges.pop(), None);
}

#[test]
fn test_edge_bit_map_empty() {
    let edges = EdgeSet::empty();
    assert_eq!(edges.iter(), vec![]);
}

#[test]
fn test_edge_bit_map_single_edge() {
    let mut edges = EdgeSet::empty();
    let edge = Edge::new(ChipId::from_ascii(b'C'), Dimension::X);
    edges.insert(edge);
    assert_eq!(edges.iter(), vec![edge]);

    let mut edges = EdgeSet::empty();
    let edge = Edge::new(ChipId::from_ascii(b'C'), Dimension::Y);
    edges.insert(edge);
    assert_eq!(edges.iter(), vec![edge]);

    let mut edges = EdgeSet::empty();
    let edge = Edge::new(ChipId::from_ascii(b'A'), Dimension::X);
    edges.insert(edge);
    assert_eq!(edges.iter(), vec![edge]);
}

#[test]
fn test_edge_bit_map_multiple_edges() {
    let mut edges = EdgeSet::empty();
    let ax = Edge::new(ChipId::from_ascii(b'A'), Dimension::X);
    let ay = Edge::new(ChipId::from_ascii(b'A'), Dimension::Y);
    let iy = Edge::new(ChipId::from_ascii(b'I'), Dimension::Y);
    edges.insert(ax);
    edges.insert(ay);
    edges.insert(iy);
    assert_eq!(edges.iter(), vec![ax, ay, iy]);
}

#[test]
fn test_edge_bit_map_clear() {
    let mut edges = EdgeSet::empty();
    let ax = Edge::new(ChipId::from_ascii(b'A'), Dimension::X);
    let ay = Edge::new(ChipId::from_ascii(b'A'), Dimension::Y);
    let iy = Edge::new(ChipId::from_ascii(b'I'), Dimension::Y);
    edges.insert(ax);
    edges.insert(ay);
    edges.insert(iy);
    edges.remove(ay);
    assert_eq!(edges.iter(), vec![ax, iy]);
}

#[test]
fn test_edge_bit_map_pop_and_len() {
    let mut edges = EdgeSet::empty();
    let ax = Edge::new(ChipId::from_ascii(b'A'), Dimension::X);
    let ay = Edge::new(ChipId::from_ascii(b'A'), Dimension::Y);
    let iy = Edge::new(ChipId::from_ascii(b'I'), Dimension::Y);
    edges.insert(ax);
    edges.insert(ay);
    edges.insert(iy);
    assert_eq!(edges.len(), 3);
    assert_eq!(edges.pop(), Some(ax));
    assert_eq!(edges.len(), 2);
    assert_eq!(edges.pop(), Some(ay));
    assert_eq!(edges.len(), 1);
    assert_eq!(edges.pop(), Some(iy));
    assert_eq!(edges.len(), 0);
    assert_eq!(edges.pop(), None);
}
