//! Views of a graph that leave cells out of routing.
use vstd::prelude::*;
use crate::h3::{CellIndex, DirectedEdgeIndex, h3_edge_destination, h3_edge_origin};
use crate::treemap::H3Treemap;
use crate::graph::node::NodeType;
use crate::graph::fastforward::cell_path;
use crate::algorithm::within_threshold::{within_threshold_weights, is_walk, edge_step, weight_total};
use crate::graph::{EdgeWeight, EdgeWeightView, GetCellEdges, GetCellNode, HasH3Resolution, edge_weight_view, edge_weights_view};

verus! {

/// An edge's weight with its fast-forward dropped when the fast-forward's
/// path touches an excluded cell.
pub open spec fn without_touching_fastforward(w: EdgeWeightView, excluded: Set<u64>) -> EdgeWeightView {
    (
        w.0,
        match w.1 {
            Some((path, ffw)) => if cell_path(path).to_set().disjoint(excluded) {
                Some((path, ffw))
            } else {
                None
            },
            None => None,
        },
    )
}

/// The edges of `entries` not leading to an excluded cell, each without a
/// fast-forward that touches an excluded cell.
pub open spec fn excluding_view(entries: Seq<(u64, EdgeWeightView)>, excluded: Set<u64>) -> Seq<(u64, EdgeWeightView)>
    decreases entries.len(),
{
    if entries.len() == 0 {
        Seq::empty()
    } else {
        let prefix = excluding_view(entries.drop_last(), excluded);
        let x = entries.last();
        if excluded.contains(h3_edge_destination(x.0)) {
            prefix
        } else {
            prefix.push((x.0, without_touching_fastforward(x.1, excluded)))
        }
    }
}

/// Every edge kept by [`excluding_view`] is an edge of `entries`.
pub proof fn lemma_excluding_view_edges(entries: Seq<(u64, EdgeWeightView)>, excluded: Set<u64>)
    ensures
        forall|k: int| #![trigger excluding_view(entries, excluded)[k]] 0 <= k < excluding_view(entries, excluded).len() ==> exists|j: int| 0 <= j < entries.len()
            && #[trigger] entries[j].0 == excluding_view(entries, excluded)[k].0,
    decreases entries.len(),
{
    if entries.len() > 0 {
        let init = entries.drop_last();
        lemma_excluding_view_edges(init, excluded);
        let r = excluding_view(entries, excluded);
        assert forall|k: int| #![trigger r[k]] 0 <= k < r.len() implies exists|j: int| 0 <= j < entries.len()
            && #[trigger] entries[j].0 == r[k].0 by {
            if k < excluding_view(init, excluded).len() {
                let j = choose|j: int| 0 <= j < init.len() && #[trigger] init[j].0 == excluding_view(init, excluded)[k].0;
                assert(entries[j] == init[j]);
            } else {
                assert(entries[entries.len() - 1].0 == r[k].0);
            }
        }
    }
}

/// Every entry kept by [`excluding_view`] leads to a cell that is not
/// excluded, and a fast-forward it keeps touches no excluded cell.
proof fn lemma_excluding_view_avoids(entries: Seq<(u64, EdgeWeightView)>, excluded: Set<u64>)
    ensures
        forall|k: int| 0 <= k < excluding_view(entries, excluded).len() ==> {
            let x = #[trigger] excluding_view(entries, excluded)[k];
            &&& !excluded.contains(h3_edge_destination(x.0))
            &&& (x.1.1 matches Some((path, _)) ==> cell_path(path).to_set().disjoint(excluded))
        },
    decreases entries.len(),
{
    if entries.len() > 0 {
        let init = entries.drop_last();
        lemma_excluding_view_avoids(init, excluded);
        let prefix = excluding_view(init, excluded);
        let r = excluding_view(entries, excluded);
        assert forall|k: int| 0 <= k < r.len() implies {
            let x = #[trigger] r[k];
            &&& !excluded.contains(h3_edge_destination(x.0))
            &&& (x.1.1 matches Some((path, _)) ==> cell_path(path).to_set().disjoint(excluded))
        } by {
            if k < prefix.len() {
                assert(r[k] == prefix[k]);
            }
        }
    }
}

/// A graph with excluded cells never leads into them: no edge is listed
/// for an excluded cell, every listed edge leads to a cell that is not
/// excluded, and every fast-forward it lists touches no excluded cell.
pub proof fn lemma_excluded_cells_avoided<'a, G: GetCellEdges>(g: ExcludeCells<'a, G>, cell: u64)
    ensures
        g.excluded().contains(cell) ==> g.cell_edges_view(cell).len() == 0,
        forall|i: int| 0 <= i < g.cell_edges_view(cell).len() ==> {
            let x = #[trigger] g.cell_edges_view(cell)[i];
            &&& !g.excluded().contains(h3_edge_destination(x.0))
            &&& (x.1.1 matches Some((path, _)) ==> cell_path(path).to_set().disjoint(g.excluded()))
        },
{
    if !g.excluded().contains(cell) {
        lemma_excluding_view_avoids(g.inner().cell_edges_view(cell), g.excluded());
    }
}

/// A graph in which some cells are excluded from routing: they are no
/// nodes, no edge leads to or from them, and fast-forwards passing them are
/// dropped.
pub struct ExcludeCells<'a, G> {
    cells_to_exclude: &'a H3Treemap<CellIndex>,
    inner_graph: &'a G,
}

impl<'a, G> ExcludeCells<'a, G> {
    /// The excluded cells.
    pub closed spec fn excluded(&self) -> Set<u64> {
        self.cells_to_exclude@
    }

    /// The graph the cells are excluded from.
    pub closed spec fn inner(&self) -> G {
        *self.inner_graph
    }

    /// Excludes `cells_to_exclude` from `inner_graph`.
    pub fn new(inner_graph: &'a G, cells_to_exclude: &'a H3Treemap<CellIndex>) -> (r: Self)
        ensures
            r.excluded() == cells_to_exclude@,
            r.inner() == *inner_graph,
    {
        ExcludeCells { cells_to_exclude, inner_graph }
    }
}

/// A search for the cells within a weight threshold on a graph with
/// excluded cells reaches no excluded cell, but for the origin itself.
pub proof fn lemma_threshold_search_avoids_excluded<'a, G: GetCellEdges>(
    g: &ExcludeCells<'a, G>,
    origin: u64,
    threshold: u64,
    m: Map<u64, u64>,
)
    requires
        within_threshold_weights(g, origin, threshold, m),
    ensures
        forall|c: u64| #[trigger] m.dom().contains(c) && c != origin ==> !g.excluded().contains(c),
{
    assert forall|c: u64| #[trigger] m.dom().contains(c) && c != origin implies !g.excluded().contains(c) by {
        let (cells, weights) = choose|cells: Seq<u64>, weights: Seq<u64>| #[trigger] is_walk(g, cells, weights)
            && cells[0] == origin && cells.last() == c && weight_total(weights) == m[c];
        let n = weights.len() as int;
        assert(n > 0);
        assert(edge_step(g, cells[n - 1], cells[n], weights[n - 1]));
        let i = choose|i: int| 0 <= i < g.cell_edges_view(cells[n - 1]).len() && h3_edge_destination(
            #[trigger] g.cell_edges_view(cells[n - 1])[i].0,
        ) == cells[n] && g.cell_edges_view(cells[n - 1])[i].1.0 == weights[n - 1];
        lemma_excluded_cells_avoided(*g, cells[n - 1]);
        assert(cells[n] == c);
    }
}

impl<'a, G: GetCellNode> GetCellNode for ExcludeCells<'a, G> {
    open spec fn cell_node_view(&self, cell: u64) -> Option<NodeType> {
        if self.excluded().contains(cell) {
            None
        } else {
            self.inner().cell_node_view(cell)
        }
    }

    fn get_cell_node(&self, cell: CellIndex) -> (r: Option<NodeType>) {
        if self.cells_to_exclude.contains(&cell) {
            None
        } else {
            self.inner_graph.get_cell_node(cell)
        }
    }
}

impl<'a, G: GetCellEdges> GetCellEdges for ExcludeCells<'a, G> {
    open spec fn cell_edges_view(&self, cell: u64) -> Seq<(u64, EdgeWeightView)> {
        if self.excluded().contains(cell) {
            Seq::empty()
        } else {
            excluding_view(self.inner().cell_edges_view(cell), self.excluded())
        }
    }

    open spec fn cells_bound(&self) -> Set<u64> {
        self.inner().cells_bound()
    }

    proof fn lemma_cell_edges(&self, cell: u64) {
        self.inner().lemma_cell_edges(cell);
        if !self.excluded().contains(cell) {
            let entries = self.inner().cell_edges_view(cell);
            lemma_excluding_view_edges(entries, self.excluded());
            assert forall|i: int| 0 <= i < self.cell_edges_view(cell).len() implies h3_edge_origin(
                (#[trigger] self.cell_edges_view(cell)[i]).0,
            ) == cell && self.cells_bound().contains(h3_edge_destination(self.cell_edges_view(cell)[i].0)) by {
                let j = choose|j: int| 0 <= j < entries.len() && #[trigger] entries[j].0 == excluding_view(
                    entries,
                    self.excluded(),
                )[i].0;
                assert(h3_edge_origin(entries[j].0) == cell);
            }
        }
    }

    fn get_edges_originating_from(&self, cell: CellIndex) -> (r: Vec<(DirectedEdgeIndex, EdgeWeight<'_>)>) {
        if self.cells_to_exclude.contains(&cell) {
            return Vec::new();
        }
        let found = self.inner_graph.get_edges_originating_from(cell);
        let ghost fv = edge_weights_view(found@);
        let ghost excluded = self.excluded();
        let mut not_excluded: Vec<(DirectedEdgeIndex, EdgeWeight<'_>)> = Vec::new();
        let n = found.len();
        for i in 0..n
            invariant
                n == found@.len(),
                fv == edge_weights_view(found@),
                excluded == self.cells_to_exclude@,
                edge_weights_view(not_excluded@) == excluding_view(fv.take(i as int), excluded),
        {
            let (edge, edge_value) = found[i];
            assert(fv.take(i + 1).drop_last() == fv.take(i as int));
            assert(fv.take(i + 1).last() == (edge@, edge_weight_view(edge_value)));
            if !self.cells_to_exclude.contains(&edge.destination()) {
                let fastforward = match edge_value.fastforward {
                    Some((fastforward, fastforward_weight)) => {
                        if fastforward.is_disjoint(self.cells_to_exclude) {
                            Some((fastforward, fastforward_weight))
                        } else {
                            None
                        }
                    },
                    None => None,
                };
                let ghost before = not_excluded@;
                not_excluded.push((edge, EdgeWeight { weight: edge_value.weight, fastforward }));
                assert(edge_weights_view(not_excluded@) == edge_weights_view(before).push(
                    (edge@, without_touching_fastforward(edge_weight_view(edge_value), excluded)),
                ));
            }
        }
        assert(fv.take(n as int) == fv);
        not_excluded
    }
}

impl<'a, G: HasH3Resolution> HasH3Resolution for ExcludeCells<'a, G> {
    open spec fn resolution_view(&self) -> u8 {
        self.inner().resolution_view()
    }

    fn h3_resolution(&self) -> (r: u8) {
        self.inner_graph.h3_resolution()
    }
}

} // verus!
