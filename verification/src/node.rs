//! The nodes of a board, as the router sees them.

use vstd::prelude::*;



verus! {

/// Common trait for nodes, the named connection points of a board.
///
/// Concrete node types are board-specific, and implement this trait.
pub trait Node: Copy + PartialEq + Eq {
    /// The node's identifier.
    spec fn spec_id(&self) -> u8;

    /// Whether a node of this board has the given identifier.
    spec fn valid_id(id: u8) -> bool;

    /// Identifier of a node, at most 127.
    fn id(&self) -> (r: u8)
        ensures
            r == self.spec_id(),
            r <= 127,
            Self::valid_id(r),
    ;

    /// Constructs the node with the given identifier.
    fn from_id(id: u8) -> (r: Self)
        requires
            Self::valid_id(id),
        ensures
            r.spec_id() == id,
    ;

    /// Two nodes with the same identifier are the same node.
    proof fn lemma_id_injective(a: Self, b: Self)
        requires
            a.spec_id() == b.spec_id(),
        ensures
            a == b,
    ;
}

/// A node that goes by a name, by which a user can refer to it.
pub trait NamedNode: Node {
    /// The bytes of the node's name.
    spec fn name_bytes(&self) -> Seq<u8>;

    /// The node with the given name, if the board has one.
    fn from_name(name: &[u8]) -> (r: Option<Self>)
        ensures
            match r {
                Some(node) => node.name_bytes() == name@,
                None => forall|node: Self| #[trigger] node.name_bytes() != name@,
            },
    ;
}

} // verus!
