//! Building edge graphs from ways: sequences of edges with their properties.
use vstd::prelude::*;
use crate::h3::{DirectedEdgeIndex, MAX_RESOLUTION, edges_view, h3_edge_reverse};
use crate::algorithm::edge::try_reverse_directed_edge;
use crate::graph::h3edge::{H3EdgeGraph, add_edge_map};
use crate::error::Error;

verus! {

/// How an edge of a way is used: in both directions or not, and its weight.
#[derive(Clone, Copy, PartialEq, Eq, Structural, Debug)]
pub struct EdgeProperties {
    pub is_bidirectional: bool,
    pub weight: u64,
}

/// Builders of edge graphs.
pub trait H3EdgeGraphBuilder {
    fn build_graph(self) -> Result<H3EdgeGraph, Error>;
}

/// The edge map after adding the edges of a way with their properties, one
/// after the other: each edge, and for a bidirectional edge also its
/// reverse, with the edge's weight (the lower weight wins, see [`add_edge_map`]).
pub open spec fn add_way_map(m: Map<u64, u64>, edges: Seq<u64>, properties: Seq<EdgeProperties>) -> Map<u64, u64>
    decreases edges.len(),
{
    if edges.len() == 0 {
        m
    } else {
        let n = edges.len() - 1;
        let before = add_way_map(m, edges.drop_last(), properties);
        let with_edge = add_edge_map(before, edges[n], properties[n].weight);
        if properties[n].is_bidirectional {
            add_edge_map(with_edge, h3_edge_reverse(edges[n])->0, properties[n].weight)
        } else {
            with_edge
        }
    }
}

/// Every bidirectional edge of the way has a reverse.
pub open spec fn way_reversible(edges: Seq<u64>, properties: Seq<EdgeProperties>) -> bool {
    forall|i: int| 0 <= i < edges.len() && #[trigger] properties[i].is_bidirectional ==> h3_edge_reverse(edges[i]) is Some
}

/// Builds an edge graph of one resolution from the ways of a map.
pub struct OsmPbfH3EdgeGraphBuilder {
    h3_resolution: u8,
    graph: H3EdgeGraph,
}

impl OsmPbfH3EdgeGraphBuilder {
    /// The edges added so far with their weights.
    pub closed spec fn edge_map(&self) -> Map<u64, u64> {
        self.graph.edge_map()
    }

    /// The resolution of the graph being built.
    pub closed spec fn resolution(&self) -> u8 {
        self.graph.resolution()
    }

    /// A builder of a graph of `h3_resolution`, without edges.
    pub fn new(h3_resolution: u8) -> (r: Self)
        requires
            h3_resolution <= MAX_RESOLUTION,
        ensures
            r.edge_map() == Map::<u64, u64>::empty(),
            r.resolution() == h3_resolution,
    {
        OsmPbfH3EdgeGraphBuilder { h3_resolution, graph: H3EdgeGraph::new(h3_resolution) }
    }

    /// Adds the edges of a way with their properties (see [`add_way_map`]).
    pub fn add_way_edges(&mut self, edges: &Vec<DirectedEdgeIndex>, properties: &Vec<EdgeProperties>)
        requires
            edges@.len() == properties@.len(),
            way_reversible(edges_view(edges@), properties@),
        ensures
            final(self).edge_map() == add_way_map(old(self).edge_map(), edges_view(edges@), properties@),
            final(self).resolution() == old(self).resolution(),
    {
        let ghost ev = edges_view(edges@);
        let ghost m0 = self.edge_map();
        let n = edges.len();
        assert(ev.take(0) =~= Seq::<u64>::empty());
        for i in 0..n
            invariant
                n == edges@.len(),
                n == properties@.len(),
                ev == edges_view(edges@),
                way_reversible(ev, properties@),
                self.edge_map() == add_way_map(m0, ev.take(i as int), properties@),
                self.resolution() == old(self).resolution(),
        {
            let edge = edges[i];
            let props = properties[i];
            assert(ev.take(i + 1).drop_last() == ev.take(i as int));
            assert(ev.take(i + 1)[i as int] == edge@);
            self.graph.add_edge(edge, props.weight);
            if props.is_bidirectional {
                assert(properties@[i as int].is_bidirectional);
                match try_reverse_directed_edge(edge) {
                    Some(reverse) => {
                        self.graph.add_edge(reverse, props.weight);
                    },
                    None => {},
                }
            }
        }
        assert(ev.take(n as int) == ev);
    }

    /// Adds the edges of a way with their properties when there is one
    /// property per edge and every bidirectional edge has a reverse; returns
    /// whether it did. Otherwise nothing is added.
    pub fn try_add_way_edges(&mut self, edges: &Vec<DirectedEdgeIndex>, properties: &Vec<EdgeProperties>) -> (r: bool)
        ensures
            r == (edges@.len() == properties@.len() && way_reversible(edges_view(edges@), properties@)),
            r ==> final(self).edge_map() == add_way_map(old(self).edge_map(), edges_view(edges@), properties@),
            !r ==> final(self).edge_map() == old(self).edge_map(),
            final(self).resolution() == old(self).resolution(),
    {
        if edges.len() != properties.len() {
            return false;
        }
        let n = edges.len();
        for i in 0..n
            invariant
                n == edges@.len(),
                n == properties@.len(),
                forall|j: int| 0 <= j < i && #[trigger] properties@[j].is_bidirectional ==> h3_edge_reverse(edges@[j]@) is Some,
        {
            if properties[i].is_bidirectional && try_reverse_directed_edge(edges[i]).is_none() {
                assert(!way_reversible(edges_view(edges@), properties@)) by {
                    assert(edges_view(edges@)[i as int] == edges@[i as int]@);
                }
                return false;
            }
        }
        assert(way_reversible(edges_view(edges@), properties@)) by {
            assert forall|j: int| 0 <= j < edges_view(edges@).len() && #[trigger] properties@[j].is_bidirectional implies h3_edge_reverse(
                edges_view(edges@)[j],
            ) is Some by {
                assert(edges_view(edges@)[j] == edges@[j]@);
            }
        }
        self.add_way_edges(edges, properties);
        true
    }
}

impl H3EdgeGraphBuilder for OsmPbfH3EdgeGraphBuilder {
    /// The graph of the edges added so far.
    fn build_graph(self) -> (r: Result<H3EdgeGraph, Error>)
        ensures
            r matches Ok(g) && g.edge_map() == self.edge_map() && g.resolution() == self.resolution(),
    {
        Ok(self.graph)
    }
}

} // verus!
