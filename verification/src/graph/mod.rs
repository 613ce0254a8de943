//! Graphs whose nodes are H3 cells and whose edges are H3 directed edges.
use vstd::prelude::*;
use crate::h3::{CellIndex, DirectedEdgeIndex};
use crate::graph::fastforward::FastForward;
use crate::graph::node::NodeType;

pub mod node;
pub mod fastforward;

verus! {

/// Basic figures of a graph.
#[derive(Clone, Copy, PartialEq, Eq, Structural, Debug)]
pub struct GraphStats {
    pub h3_resolution: u8,
    pub num_nodes: usize,
    pub num_edges: usize,
}

/// The weight of an edge, together with the fast-forward that starts with
/// the edge, if there is one, and the fast-forward's weight.
#[derive(Clone, Copy)]
pub struct EdgeWeight<'a> {
    pub weight: u64,
    pub fastforward: Option<(&'a FastForward, u64)>,
}

/// What the library states of an edge: its weight and, if it starts a
/// fast-forward, the fast-forward's edge path and weight.
pub type EdgeWeightView = (u64, Option<(Seq<u64>, u64)>);

/// The view of an edge weight.
pub open spec fn edge_weight_view(w: EdgeWeight) -> EdgeWeightView {
    (
        w.weight,
        match w.fastforward {
            Some((ff, ffw)) => Some((ff.path(), ffw)),
            None => None,
        },
    )
}

/// The view of a sequence of edges with their weights.
pub open spec fn edge_weights_view(s: Seq<(DirectedEdgeIndex, EdgeWeight)>) -> Seq<(u64, EdgeWeightView)> {
    s.map_values(|p: (DirectedEdgeIndex, EdgeWeight)| (p.0@, edge_weight_view(p.1)))
}

impl<'a> EdgeWeight<'a> {
    /// A weight without a fast-forward.
    pub fn from_weight(weight: u64) -> (r: EdgeWeight<'a>)
        ensures
            r.weight == weight,
            r.fastforward is None,
    {
        EdgeWeight { weight, fastforward: None }
    }
}

/// Graphs with a known H3 resolution.
pub trait HasH3Resolution {
    spec fn resolution_view(&self) -> u8;

    /// The resolution of the cells of the graph.
    fn h3_resolution(&self) -> (r: u8)
        ensures
            r == self.resolution_view(),
    ;
}

/// Graphs that can be asked for their figures.
pub trait GetStats {
    spec fn stats_view(&self) -> GraphStats;

    fn get_stats(&self) -> (r: Result<GraphStats, crate::error::Error>)
        ensures
            r == Ok::<GraphStats, crate::error::Error>(self.stats_view()),
    ;
}

/// Graphs that know the role of their cells.
pub trait GetCellNode {
    /// The role of `cell` in the graph, if it is a node.
    spec fn cell_node_view(&self, cell: u64) -> Option<NodeType>;

    /// The role of `cell` in the graph, if it is a node.
    fn get_cell_node(&self, cell: CellIndex) -> (r: Option<NodeType>)
        ensures
            r == self.cell_node_view(cell@),
    ;
}

/// Graphs that list their nodes.
pub trait IterateCellNodes {
    /// The nodes of the graph with their roles.
    spec fn cell_nodes_view(&self) -> Map<u64, NodeType>;

    /// All nodes of the graph with their roles, each once, in no particular order.
    fn iter_cell_nodes(&self) -> (r: Vec<(CellIndex, NodeType)>)
        ensures
            crate::collections::entries_of(r@.map_values(|p: (CellIndex, NodeType)| (p.0@, p.1)), self.cell_nodes_view()),
    ;
}

/// Graphs that list the edges leaving a cell.
pub trait GetCellEdges {
    /// The edges leaving `cell` with their weights.
    spec fn cell_edges_view(&self, cell: u64) -> Seq<(u64, EdgeWeightView)>;

    /// A finite set of cells holding every cell that an edge of the graph
    /// leads to.
    spec fn cells_bound(&self) -> Set<u64>;

    /// The edges leaving a cell start at that cell, lead to cells of
    /// [`GetCellEdges::cells_bound`], which is finite.
    proof fn lemma_cell_edges(&self, cell: u64)
        ensures
            self.cells_bound().finite(),
            forall|i: int| 0 <= i < self.cell_edges_view(cell).len() ==> crate::h3::h3_edge_origin(
                (#[trigger] self.cell_edges_view(cell)[i]).0,
            ) == cell && self.cells_bound().contains(
                crate::h3::h3_edge_destination(self.cell_edges_view(cell)[i].0),
            ),
    ;

    /// All edges originating from `cell` with their weights.
    fn get_edges_originating_from(&self, cell: CellIndex) -> (r: Vec<(DirectedEdgeIndex, EdgeWeight<'_>)>)
        ensures
            edge_weights_view(r@) == self.cell_edges_view(cell@),
    ;
}

/// The weight of `edge` among the edges listed for its origin, if it is
/// among them: the first entry with that edge.
pub open spec fn find_edge_view(edges: Seq<(u64, EdgeWeightView)>, edge: u64) -> Option<EdgeWeightView>
    decreases edges.len(),
{
    if edges.len() == 0 {
        None
    } else if edges[0].0 == edge {
        Some(edges[0].1)
    } else {
        find_edge_view(edges.drop_first(), edge)
    }
}

/// The weight of `edge` in `graph`: looked up among the edges leaving the
/// edge's origin cell.
pub fn get_edge<'a, G: GetCellEdges>(graph: &'a G, edge: DirectedEdgeIndex) -> (r: Option<EdgeWeight<'a>>)
    ensures
        match r {
            Some(w) => find_edge_view(graph.cell_edges_view(crate::h3::h3_edge_origin(edge@)), edge@)
                == Some(edge_weight_view(w)),
            None => find_edge_view(graph.cell_edges_view(crate::h3::h3_edge_origin(edge@)), edge@)
                is None,
        },
{
    let cell = edge.origin();
    let found = graph.get_edges_originating_from(cell);
    let ghost all = edge_weights_view(found@);
    let n = found.len();
    let target = edge.to_u64();
    assert(all.skip(0) == all);
    for i in 0..n
        invariant
            n == found@.len(),
            all == edge_weights_view(found@),
            all == graph.cell_edges_view(cell@),
            cell@ == crate::h3::h3_edge_origin(edge@),
            target == edge@,
            find_edge_view(all.skip(i as int), target) == find_edge_view(all, target),
    {
        assert(all.skip(i as int).drop_first() == all.skip(i + 1));
        if found[i].0.to_u64() == target {
            assert(all.skip(i as int)[0] == all[i as int]);
            assert(all[i as int] == (found@[i as int].0@, edge_weight_view(found@[i as int].1)));
            assert(find_edge_view(all.skip(i as int), target) == Some(all[i as int].1));
            assert(cell@ == crate::h3::h3_edge_origin(edge@));
            return Some(found[i].1);
        }
    }
    assert(all.skip(n as int).len() == 0);
    None
}

} // verus!
pub mod h3edge;
pub mod prepared;
pub mod modifiers;
pub mod builder;
