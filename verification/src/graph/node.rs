//! The role of a cell in a graph.
use vstd::prelude::*;

verus! {

/// Whether a cell is the origin of edges, the destination of edges, or both.
#[derive(Clone, Copy, PartialEq, Eq, Structural, Debug, Hash)]
pub enum NodeType {
    Origin,
    Destination,
    OriginAndDestination,
}

/// Combining two roles of the same cell: equal roles stay, different ones
/// make the cell both origin and destination.
pub open spec fn node_type_add(a: NodeType, b: NodeType) -> NodeType {
    if a == b {
        a
    } else {
        NodeType::OriginAndDestination
    }
}

/// The role of a cell given whether it is an origin and whether it is a destination.
pub open spec fn node_type_of(is_origin: bool, is_destination: bool) -> Option<NodeType> {
    if is_origin && is_destination {
        Some(NodeType::OriginAndDestination)
    } else if is_origin {
        Some(NodeType::Origin)
    } else if is_destination {
        Some(NodeType::Destination)
    } else {
        None
    }
}

impl NodeType {
    /// Whether the cell can be the start of a route.
    pub open spec fn spec_is_origin(self) -> bool {
        self == NodeType::Origin || self == NodeType::OriginAndDestination
    }

    /// Whether the cell can be the end of a route.
    pub open spec fn spec_is_destination(self) -> bool {
        self == NodeType::Destination || self == NodeType::OriginAndDestination
    }

    /// Whether the cell can be the start of a route.
    pub fn is_origin(&self) -> (b: bool)
        ensures
            b == self.spec_is_origin(),
    {
        match self {
            NodeType::Origin | NodeType::OriginAndDestination => true,
            NodeType::Destination => false,
        }
    }

    /// Whether the cell can be the end of a route.
    pub fn is_destination(&self) -> (b: bool)
        ensures
            b == self.spec_is_destination(),
    {
        match self {
            NodeType::Destination | NodeType::OriginAndDestination => true,
            NodeType::Origin => false,
        }
    }

    /// Combines two roles of the same cell (the `+=` of node types).
    pub fn add(self, other: NodeType) -> (r: NodeType)
        ensures
            r == node_type_add(self, other),
    {
        if self == other {
            self
        } else {
            NodeType::OriginAndDestination
        }
    }
}

/// Adding a role is the same as or-ing the origin and destination flags.
pub proof fn lemma_node_type_add_flags(a: NodeType, b: NodeType)
    ensures
        node_type_of(
            a.spec_is_origin() || b.spec_is_origin(),
            a.spec_is_destination() || b.spec_is_destination(),
        ) == Some(node_type_add(a, b)),
{
}

} // verus!
