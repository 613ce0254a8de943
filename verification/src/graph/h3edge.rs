//! A graph of weighted H3 directed edges.
use vstd::prelude::*;
use crate::h3::{CellIndex, DirectedEdgeIndex, MAX_RESOLUTION, h3_is_cell, h3_is_edge, h3_edge_origin, h3_edge_destination, h3_edge_between, h3_parent, h3_cell_edges, edges_view};
use crate::collections::{U64Map, NodeTypeMap, entries_of, entry_keys, lemma_filter_from, lemma_filter_no_duplicates, is_fold_run, selector_fold, lemma_fold_push};
use crate::graph::node::{NodeType, node_type_of, node_type_add, lemma_node_type_add_flags};
use crate::graph::{EdgeWeight, GraphStats, GetStats, HasH3Resolution};
use crate::error::Error;

verus! {

/// Some edge of `edges` starts at `cell`.
pub open spec fn edges_originate_at(edges: Set<u64>, cell: u64) -> bool {
    exists|e: u64| #[trigger] edges.contains(e) && h3_edge_origin(e) == cell
}

/// Some edge of `edges` ends at `cell`.
pub open spec fn edges_lead_to(edges: Set<u64>, cell: u64) -> bool {
    exists|e: u64| #[trigger] edges.contains(e) && h3_edge_destination(e) == cell
}

/// The nodes of a graph with the given edges: every cell an edge starts or
/// ends at, with its role.
pub open spec fn nodes_of(edges: Set<u64>) -> Map<u64, NodeType> {
    Map::new(
        |c: u64| edges_originate_at(edges, c) || edges_lead_to(edges, c),
        |c: u64| node_type_of(edges_originate_at(edges, c), edges_lead_to(edges, c))->0,
    )
}

/// The edge map after adding `edge` with `weight`: a lower weight replaces
/// a present one, a higher or equal one is ignored.
pub open spec fn add_edge_map(m: Map<u64, u64>, edge: u64, weight: u64) -> Map<u64, u64> {
    if m.dom().contains(edge) && m[edge] <= weight {
        m
    } else {
        m.insert(edge, weight)
    }
}

/// Two edge maps merged: an edge present in both keeps the lower weight.
pub open spec fn merge_min(a: Map<u64, u64>, b: Map<u64, u64>) -> Map<u64, u64> {
    Map::new(
        |e: u64| a.dom().contains(e) || b.dom().contains(e),
        |e: u64|
            if a.dom().contains(e) && b.dom().contains(e) {
                if a[e] <= b[e] {
                    a[e]
                } else {
                    b[e]
                }
            } else if a.dom().contains(e) {
                a[e]
            } else {
                b[e]
            },
    )
}

/// Adding an edge to a graph keeps the lower of the old and the new weight
/// for that edge, and leaves every other edge as it was.
pub proof fn lemma_add_edge_keeps_min(m: Map<u64, u64>, edge: u64, weight: u64)
    ensures
        add_edge_map(m, edge, weight).dom() == m.dom().insert(edge),
        add_edge_map(m, edge, weight)[edge] == (if m.dom().contains(edge) && m[edge] < weight {
            m[edge]
        } else {
            weight
        }),
        forall|e: u64| e != edge && #[trigger] m.dom().contains(e) ==> add_edge_map(m, edge, weight)[e] == m[e],
{
    assert(add_edge_map(m, edge, weight).dom() =~= m.dom().insert(edge));
}

/// The order in which edges are added to a graph does not matter.
pub proof fn lemma_add_edge_order_independent(m: Map<u64, u64>, e1: u64, w1: u64, e2: u64, w2: u64)
    ensures
        add_edge_map(add_edge_map(m, e1, w1), e2, w2) == add_edge_map(add_edge_map(m, e2, w2), e1, w1),
{
    assert(add_edge_map(add_edge_map(m, e1, w1), e2, w2) =~= add_edge_map(add_edge_map(m, e2, w2), e1, w1));
}

/// Merging two graphs gives the same edges and weights in either order,
/// and merging a graph with itself changes nothing.
pub proof fn lemma_merge_min_symmetric(a: Map<u64, u64>, b: Map<u64, u64>)
    ensures
        merge_min(a, b) == merge_min(b, a),
        merge_min(a, a) == a,
{
    assert(merge_min(a, b) =~= merge_min(b, a));
    assert(merge_min(a, a) =~= a);
}

/// Merging a graph of a single edge into a graph is adding that edge.
pub proof fn lemma_merge_min_single_edge(m: Map<u64, u64>, edge: u64, weight: u64)
    ensures
        merge_min(m, map![edge => weight]) == add_edge_map(m, edge, weight),
{
    assert(merge_min(m, map![edge => weight]) =~= add_edge_map(m, edge, weight));
}

/// The edges of `edges` leaving `cell`, in `h3o`'s order of the cell's edges.
pub open spec fn edges_leaving(edges: Map<u64, u64>, cell: u64) -> Seq<u64> {
    h3_cell_edges(cell).filter(|e: u64| edges.dom().contains(e))
}

/// A graph of H3 directed edges with weights, all of one resolution.
pub struct H3EdgeGraph {
    edges: U64Map,
    h3_resolution: u8,
}

impl H3EdgeGraph {
    /// The weight of each edge.
    pub closed spec fn edge_map(&self) -> Map<u64, u64> {
        self.edges@
    }

    /// The resolution of the graph.
    pub closed spec fn resolution(&self) -> u8 {
        self.h3_resolution
    }

    /// The resolution is valid and every key is a directed edge index.
    #[verifier::type_invariant]
    closed spec fn inv(&self) -> bool {
        &&& self.h3_resolution <= MAX_RESOLUTION
        &&& self.edges@.dom().finite()
        &&& forall|e: u64| #[trigger] self.edges@.dom().contains(e) ==> h3_is_edge(e)
    }

    /// The invariant, stated over the views.
    pub closed spec fn valid(&self) -> bool {
        self.inv()
    }

    /// The map of the edges to their weights.
    pub(crate) fn edge_lookup(&self) -> (r: &U64Map)
        ensures
            r@ == self.edge_map(),
            r@.dom().finite(),
            forall|e: u64| #[trigger] r@.dom().contains(e) ==> h3_is_edge(e),
            self.resolution() <= MAX_RESOLUTION,
    {
        proof {
            use_type_invariant(self);
        }
        &self.edges
    }

    /// An empty graph of the given resolution.
    pub fn new(h3_resolution: u8) -> (r: H3EdgeGraph)
        requires
            h3_resolution <= MAX_RESOLUTION,
        ensures
            r.edge_map() == Map::<u64, u64>::empty(),
            r.resolution() == h3_resolution,
    {
        H3EdgeGraph { edges: U64Map::new(), h3_resolution }
    }

    /// The number of nodes: the cells that edges start or end at.
    ///
    /// The nodes are extracted from the edges, so this is rather expensive.
    pub fn num_nodes(&self) -> (r: usize)
        ensures
            r == nodes_of(self.edge_map().dom()).len(),
    {
        self.nodes().len()
    }

    /// The number of edges.
    pub fn num_edges(&self) -> (r: usize)
        ensures
            r == self.edge_map().len(),
    {
        self.edges.len()
    }

    /// The weight of `edge`, if it is part of the graph.
    pub fn edge_weight(&self, edge: DirectedEdgeIndex) -> (r: Option<u64>)
        ensures
            r == (if self.edge_map().dom().contains(edge@) {
                Some(self.edge_map()[edge@])
            } else {
                None
            }),
    {
        self.edges.get(edge.to_u64())
    }

    /// All edges of the graph leaving `cell`, with their weights.
    pub fn edges_from_cell(&self, cell: CellIndex) -> (r: Vec<(DirectedEdgeIndex, u64)>)
        ensures
            r@.map_values(|p: (DirectedEdgeIndex, u64)| p.0@) == edges_leaving(self.edge_map(), cell@),
            forall|i: int| 0 <= i < r@.len() ==> (#[trigger] r@[i]).1 == self.edge_map()[r@[i].0@],
    {
        let candidates = cell.edges();
        let ghost cv = edges_view(candidates@);
        let ghost pred = |e: u64| self.edge_map().dom().contains(e);
        let mut out: Vec<(DirectedEdgeIndex, u64)> = Vec::new();
        let n = candidates.len();
        for i in 0..n
            invariant
                n == candidates@.len(),
                cv == edges_view(candidates@),
                cv == h3_cell_edges(cell@),
                pred == (|e: u64| self.edge_map().dom().contains(e)),
                out@.map_values(|p: (DirectedEdgeIndex, u64)| p.0@) == cv.take(i as int).filter(pred),
                forall|j: int| 0 <= j < out@.len() ==> (#[trigger] out@[j]).1 == self.edge_map()[out@[j].0@],
        {
            let e = candidates[i];
            let ghost before = out@;
            assert(cv.take(i + 1) == cv.take(i as int).push(e@));
            proof {
                cv.take(i as int).lemma_filter_push(e@, pred);
            }
            match self.edges.get(e.to_u64()) {
                Some(w) => {
                    out.push((e, w));
                    assert(out@.map_values(|p: (DirectedEdgeIndex, u64)| p.0@) == before.map_values(
                        |p: (DirectedEdgeIndex, u64)| p.0@,
                    ).push(e@));
                },
                None => {},
            }
        }
        assert(cv.take(n as int) == cv);
        out
    }

    /// Adds `edge` with `weight`. When the edge is already present, the lower
    /// of the two weights is kept.
    pub fn add_edge(&mut self, edge: DirectedEdgeIndex, weight: u64)
        ensures
            final(self).edge_map() == add_edge_map(old(self).edge_map(), edge@, weight),
            final(self).resolution() == old(self).resolution(),
    {
        proof {
            use_type_invariant(&*self);
            use_type_invariant(&edge);
        }
        let mut edges = U64Map::new();
        std::mem::swap(&mut edges, &mut self.edges);
        let e = edge.to_u64();
        match edges.get(e) {
            Some(existing) => {
                if weight < existing {
                    edges.insert(e, weight);
                }
            },
            None => {
                edges.insert(e, weight);
            },
        }
        assert(forall|k: u64| #[trigger] edges@.dom().contains(k) ==> h3_is_edge(k)) by {
            assert forall|k: u64| #[trigger] edges@.dom().contains(k) implies h3_is_edge(k) by {
                if k != e {
                    assert(old(self).edges@.dom().contains(k));
                }
            }
        }
        self.edges = edges;
    }

    /// Adds all edges of `other`, keeping the lower weight of edges present
    /// in both. Graphs of different resolutions are refused with
    /// `MixedH3Resolutions`.
    pub fn try_add(&mut self, other: H3EdgeGraph) -> (r: Result<(), Error>)
        ensures
            old(self).resolution() != other.resolution() ==> r == Err::<(), Error>(
                Error::MixedH3Resolutions(old(self).resolution(), other.resolution()),
            ) && final(self).edge_map() == old(self).edge_map(),
            old(self).resolution() == other.resolution() ==> r == Ok::<(), Error>(())
                && final(self).edge_map() == merge_min(old(self).edge_map(), other.edge_map()),
            final(self).resolution() == old(self).resolution(),
    {
        if self.h3_resolution != other.h3_resolution {
            return Err(Error::MixedH3Resolutions(self.h3_resolution, other.h3_resolution));
        }
        proof {
            use_type_invariant(&other);
        }
        let entries = other.edges.entries();
        let ghost a = self.edge_map();
        let ghost b = other.edge_map();
        let ghost keys = entry_keys(entries@);
        let n = entries.len();
        for i in 0..n
            invariant
                n == entries@.len(),
                keys == entry_keys(entries@),
                entries_of(entries@, b),
                a == old(self).edge_map(),
                b == other.edge_map(),
                forall|e: u64| #[trigger] b.dom().contains(e) ==> h3_is_edge(e),
                self.resolution() == old(self).resolution(),
                forall|e: u64| #[trigger] self.edge_map().dom().contains(e) <==> (a.dom().contains(e)
                    || keys.take(i as int).contains(e)),
                forall|e: u64| #[trigger] self.edge_map().dom().contains(e) ==> self.edge_map()[e] == (
                if keys.take(i as int).contains(e) {
                    merge_min(a, b)[e]
                } else {
                    a[e]
                }),
        {
            let (key, weight) = entries[i];
            assert(keys[i as int] == key);
            assert(b.dom().contains(key) && b[key] == weight);
            let edge = DirectedEdgeIndex::from_valid(key);
            let ghost before = self.edge_map();
            self.add_edge(edge, weight);
            assert(keys.take(i + 1) == keys.take(i as int).push(key));
            assert(!keys.take(i as int).contains(key)) by {
                if keys.take(i as int).contains(key) {
                    let j = choose|j: int| 0 <= j < i && #[trigger] keys.take(i as int)[j] == key;
                    assert(keys[j] == keys[i as int]);
                }
            }
            assert forall|e: u64| #[trigger] self.edge_map().dom().contains(e) implies self.edge_map()[e] == (
            if keys.take(i + 1).contains(e) {
                merge_min(a, b)[e]
            } else {
                a[e]
            }) by {
                if e != key {
                    assert(keys.take(i + 1).contains(e) == keys.take(i as int).contains(e));
                    assert(before.dom().contains(e));
                } else {
                    assert(keys.take(i + 1)[i as int] == key);
                    assert(before.dom().contains(key) == a.dom().contains(key));
                    if a.dom().contains(key) {
                        assert(before[key] == a[key]);
                    }
                    assert(merge_min(a, b).dom().contains(key));
                }
            }
            assert forall|e: u64| #[trigger] self.edge_map().dom().contains(e) <==> (a.dom().contains(e)
                    || keys.take(i + 1).contains(e)) by {
                if e != key {
                    assert(keys.take(i + 1).contains(e) == keys.take(i as int).contains(e));
                } else {
                    assert(keys.take(i + 1)[i as int] == key);
                }
            }
        }
        assert(keys.take(n as int) == keys);
        assert(self.edge_map() == merge_min(a, b)) by {
            assert forall|e: u64| #[trigger] b.dom().contains(e) implies keys.contains(e) by {
                let j = choose|j: int| 0 <= j < entries@.len() && entries@[j].0 == e;
                assert(keys[j] == e);
            }
            assert forall|e: u64| #[trigger] keys.contains(e) implies b.dom().contains(e) by {
                let j = choose|j: int| 0 <= j < keys.len() && keys[j] == e;
                assert(entries@[j].0 == e);
            }
        }
        Ok(())
    }

    /// The cells that are valid targets to route to: every cell an edge
    /// starts or ends at, with its role.
    ///
    /// The nodes are not stored, so they are extracted from the edges.
    pub fn nodes(&self) -> (r: NodeTypeMap)
        ensures
            r@ == nodes_of(self.edge_map().dom()),
            forall|c: u64| #[trigger] r@.dom().contains(c) ==> h3_is_cell(c),
    {
        proof {
            use_type_invariant(self);
        }
        extract_nodes(&self.edges)
    }

    /// All edges of the graph with their weights, in no particular order.
    pub fn iter_edges(&self) -> (r: Vec<(DirectedEdgeIndex, u64)>)
        ensures
            entries_of(r@.map_values(|p: (DirectedEdgeIndex, u64)| (p.0@, p.1)), self.edge_map()),
    {
        proof {
            use_type_invariant(self);
        }
        let entries = self.edges.entries();
        let mut out: Vec<(DirectedEdgeIndex, u64)> = Vec::new();
        let n = entries.len();
        for i in 0..n
            invariant
                n == entries@.len(),
                entries_of(entries@, self.edge_map()),
                forall|e: u64| #[trigger] self.edge_map().dom().contains(e) ==> h3_is_edge(e),
                out@.map_values(|p: (DirectedEdgeIndex, u64)| (p.0@, p.1)) == entries@.take(i as int),
        {
            let (key, weight) = entries[i];
            let ghost before = out@;
            out.push((DirectedEdgeIndex::from_valid(key), weight));
            assert(entries@.take(i + 1) == entries@.take(i as int).push((key, weight)));
            assert(out@.map_values(|p: (DirectedEdgeIndex, u64)| (p.0@, p.1)) == before.map_values(
                |p: (DirectedEdgeIndex, u64)| (p.0@, p.1),
            ).push((key, weight)));
        }
        assert(entries@.take(n as int) == entries@);
        out
    }

    /// The weight of `edge` as an [`EdgeWeight`] without fast-forward.
    pub fn get_edge(&self, edge: DirectedEdgeIndex) -> (r: Option<EdgeWeight<'_>>)
        ensures
            match r {
                Some(w) => self.edge_map().dom().contains(edge@) && w.weight == self.edge_map()[edge@]
                    && w.fastforward is None,
                None => !self.edge_map().dom().contains(edge@),
            },
    {
        match self.edges.get(edge.to_u64()) {
            Some(w) => Some(EdgeWeight::from_weight(w)),
            None => None,
        }
    }
}

impl HasH3Resolution for H3EdgeGraph {
    open spec fn resolution_view(&self) -> u8 {
        self.resolution()
    }

    fn h3_resolution(&self) -> (r: u8) {
        self.h3_resolution
    }
}

impl GetStats for H3EdgeGraph {
    open spec fn stats_view(&self) -> GraphStats {
        GraphStats {
            h3_resolution: self.resolution(),
            num_nodes: nodes_of(self.edge_map().dom()).len() as usize,
            num_edges: self.edge_map().len() as usize,
        }
    }

    fn get_stats(&self) -> (r: Result<GraphStats, Error>) {
        Ok(GraphStats {
            h3_resolution: self.h3_resolution,
            num_nodes: self.num_nodes(),
            num_edges: self.num_edges(),
        })
    }
}

/// Some edge of `edges` starts at `cell`.
pub open spec fn seq_originates_at(edges: Seq<u64>, cell: u64) -> bool {
    exists|j: int| 0 <= j < edges.len() && h3_edge_origin(#[trigger] edges[j]) == cell
}

/// Some edge of `edges` ends at `cell`.
pub open spec fn seq_leads_to(edges: Seq<u64>, cell: u64) -> bool {
    exists|j: int| 0 <= j < edges.len() && h3_edge_destination(#[trigger] edges[j]) == cell
}

/// Records the role of `cell` as given by `role` in `cells`.
fn add_role(cells: &mut NodeTypeMap, cell: u64, role: NodeType)
    ensures
        final(cells)@ == old(cells)@.insert(
            cell,
            if old(cells)@.dom().contains(cell) {
                node_type_add(old(cells)@[cell], role)
            } else {
                role
            },
        ),
{
    match cells.get(cell) {
        Some(existing) => cells.insert(cell, existing.add(role)),
        None => cells.insert(cell, role),
    }
}

/// `cells` holds the cells the edges of `keys` start or end at, with their roles.
pub open spec fn roles_match(cells: Map<u64, NodeType>, keys: Seq<u64>) -> bool {
    &&& forall|c: u64| #[trigger] cells.dom().contains(c) <==> (seq_originates_at(keys, c) || seq_leads_to(keys, c))
    &&& forall|c: u64| #[trigger] cells.dom().contains(c) ==> Some(cells[c]) == node_type_of(
        seq_originates_at(keys, c),
        seq_leads_to(keys, c),
    )
}

/// Records the roles of the origin and destination cell of `edge`.
pub(crate) fn record_edge_roles(cells: &mut NodeTypeMap, edge: DirectedEdgeIndex, Ghost(keys): Ghost<Seq<u64>>)
    requires
        roles_match(old(cells)@, keys),
    ensures
        roles_match(final(cells)@, keys.push(edge@)),
        forall|c: u64| #[trigger] final(cells)@.dom().contains(c) ==> old(cells)@.dom().contains(c) || h3_is_cell(c),
{
    let origin = edge.origin();
    let destination = edge.destination();
    proof {
        use_type_invariant(&origin);
        use_type_invariant(&destination);
    }
    let o = origin.to_u64();
    let d = destination.to_u64();
    let ghost key = edge@;
    let ghost prefix = keys;
    let ghost next = keys.push(key);
    let ghost i = keys.len() as int;
    assert forall|c: u64| #[trigger] seq_originates_at(next, c) == (seq_originates_at(prefix, c) || c == o) by {
        if seq_originates_at(next, c) && !seq_originates_at(prefix, c) {
            let j = choose|j: int| 0 <= j < next.len() && h3_edge_origin(#[trigger] next[j]) == c;
            if j < prefix.len() {
                assert(prefix[j] == next[j]);
            }
        }
        if seq_originates_at(prefix, c) {
            let j = choose|j: int| 0 <= j < prefix.len() && h3_edge_origin(#[trigger] prefix[j]) == c;
            assert(next[j] == prefix[j]);
        }
        if c == o {
            assert(next[i] == key);
        }
    }
    assert forall|c: u64| #[trigger] seq_leads_to(next, c) == (seq_leads_to(prefix, c) || c == d) by {
        if seq_leads_to(next, c) && !seq_leads_to(prefix, c) {
            let j = choose|j: int| 0 <= j < next.len() && h3_edge_destination(#[trigger] next[j]) == c;
            if j < prefix.len() {
                assert(prefix[j] == next[j]);
            }
        }
        if seq_leads_to(prefix, c) {
            let j = choose|j: int| 0 <= j < prefix.len() && h3_edge_destination(#[trigger] prefix[j]) == c;
            assert(next[j] == prefix[j]);
        }
        if c == d {
            assert(next[i] == key);
        }
    }
    let ghost mid_before = cells@;
    add_role(cells, o, NodeType::Origin);
    proof {
        if mid_before.dom().contains(o) {
            lemma_node_type_add_flags(mid_before[o], NodeType::Origin);
        }
    }
    let ghost mid = cells@;
    add_role(cells, d, NodeType::Destination);
    proof {
        if mid.dom().contains(d) {
            lemma_node_type_add_flags(mid[d], NodeType::Destination);
        }
    }
}

/// The roles recorded for all edges of `keys` are the nodes of the set of those edges.
pub proof fn lemma_roles_match_nodes_of(cells: Map<u64, NodeType>, keys: Seq<u64>)
    requires
        roles_match(cells, keys),
    ensures
        cells == nodes_of(keys.to_set()),
{
    let edges = keys.to_set();
    assert forall|c: u64| seq_originates_at(keys, c) == edges_originate_at(edges, c) by {
        if seq_originates_at(keys, c) {
            let j = choose|j: int| 0 <= j < keys.len() && h3_edge_origin(#[trigger] keys[j]) == c;
            assert(edges.contains(keys[j]));
        }
        if edges_originate_at(edges, c) {
            let e = choose|e: u64| #[trigger] edges.contains(e) && h3_edge_origin(e) == c;
            let j = choose|j: int| 0 <= j < keys.len() && keys[j] == e;
            assert(h3_edge_origin(keys[j]) == c);
        }
    }
    assert forall|c: u64| seq_leads_to(keys, c) == edges_lead_to(edges, c) by {
        if seq_leads_to(keys, c) {
            let j = choose|j: int| 0 <= j < keys.len() && h3_edge_destination(#[trigger] keys[j]) == c;
            assert(edges.contains(keys[j]));
        }
        if edges_lead_to(edges, c) {
            let e = choose|e: u64| #[trigger] edges.contains(e) && h3_edge_destination(e) == c;
            let j = choose|j: int| 0 <= j < keys.len() && keys[j] == e;
            assert(h3_edge_destination(keys[j]) == c);
        }
    }
    assert(cells =~= nodes_of(edges));
}

/// The nodes of a graph: every cell an edge starts or ends at, with its role.
pub(crate) fn extract_nodes(edge_map: &U64Map) -> (r: NodeTypeMap)
    requires
        forall|e: u64| #[trigger] edge_map@.dom().contains(e) ==> h3_is_edge(e),
    ensures
        r@ == nodes_of(edge_map@.dom()),
        forall|c: u64| #[trigger] r@.dom().contains(c) ==> h3_is_cell(c),
{
    let entries = edge_map.entries();
    let ghost keys = entry_keys(entries@);
    let mut cells = NodeTypeMap::new();
    let n = entries.len();
    assert(keys.take(0) =~= Seq::<u64>::empty());
    for i in 0..n
        invariant
            n == entries@.len(),
            keys == entry_keys(entries@),
            entries_of(entries@, edge_map@),
            forall|e: u64| #[trigger] edge_map@.dom().contains(e) ==> h3_is_edge(e),
            roles_match(cells@, keys.take(i as int)),
            forall|c: u64| #[trigger] cells@.dom().contains(c) ==> h3_is_cell(c),
    {
        let (key, _) = entries[i];
        assert(keys[i as int] == key);
        assert(entries@[i as int].0 == key);
        let edge = DirectedEdgeIndex::from_valid(key);
        record_edge_roles(&mut cells, edge, Ghost(keys.take(i as int)));
        assert(keys.take(i + 1) == keys.take(i as int).push(key));
    }
    assert(keys.take(n as int) == keys);
    proof {
        lemma_roles_match_nodes_of(cells@, keys);
        assert(keys.to_set() =~= edge_map@.dom()) by {
            assert forall|e: u64| keys.to_set().contains(e) implies edge_map@.dom().contains(e) by {
                let j = choose|j: int| 0 <= j < keys.len() && keys[j] == e;
                assert(entries@[j].0 == e);
            }
            assert forall|e: u64| edge_map@.dom().contains(e) implies keys.to_set().contains(e) by {
                let j = choose|j: int| 0 <= j < entries@.len() && entries@[j].0 == e;
                assert(keys[j] == e);
            }
        }
    }
    cells
}

/// The edge standing for `edge` at the coarser resolution `target`: the
/// edge between the parents of its cells, or `None` when both cells have the
/// same parent (or a parent or the edge between the parents is missing).
pub open spec fn downsampled_edge(edge: u64, target: u8) -> Option<u64> {
    match (h3_parent(h3_edge_origin(edge), target), h3_parent(h3_edge_destination(edge), target)) {
        (Some(po), Some(pd)) => if po != pd {
            h3_edge_between(po, pd)
        } else {
            None
        },
        _ => None,
    }
}

/// Every edge of `edges` can be brought to `target`: both its cells have a
/// parent there, and parents that differ are neighbors.
pub open spec fn can_downsample(edges: Set<u64>, target: u8) -> bool {
    forall|e: u64| #[trigger] edges.contains(e) ==> {
        &&& h3_parent(h3_edge_origin(e), target) is Some
        &&& h3_parent(h3_edge_destination(e), target) is Some
        &&& h3_parent(h3_edge_origin(e), target) != h3_parent(h3_edge_destination(e), target)
            ==> h3_edge_between(
            h3_parent(h3_edge_origin(e), target)->0,
            h3_parent(h3_edge_destination(e), target)->0,
        ) is Some
    }
}

/// `e` is one of `edges` whose downsampled edge is `d`.
pub open spec fn contributes(edges: Set<u64>, target: u8, e: u64, d: u64) -> bool {
    edges.contains(e) && downsampled_edge(e, target) == Some(d)
}

/// The edges of `keys` whose downsampled edge at `target` is `d`, in their
/// order.
pub open spec fn contributors(keys: Seq<u64>, target: u8, d: u64) -> Seq<u64> {
    keys.filter(|e: u64| downsampled_edge(e, target) == Some(d))
}

/// The weights of `edges` in `m`, in their order.
pub open spec fn weights_of(m: Map<u64, u64>, edges: Seq<u64>) -> Seq<u64> {
    edges.map_values(|e: u64| m[e])
}

/// Adding the next key to the keys seen adds it to the contributors of its
/// downsampled edge and leaves the others.
proof fn lemma_contributors_push(keys: Seq<u64>, i: int, target: u8, d: u64)
    requires
        0 <= i < keys.len(),
    ensures
        contributors(keys.take(i + 1), target, d) == (if downsampled_edge(keys[i], target) == Some(d) {
            contributors(keys.take(i), target, d).push(keys[i])
        } else {
            contributors(keys.take(i), target, d)
        }),
{
    assert(keys.take(i + 1) == keys.take(i).push(keys[i]));
    keys.take(i).lemma_filter_push(keys[i], |e: u64| downsampled_edge(e, target) == Some(d));
}

/// A contributor among the first keys is one of them.
proof fn lemma_contributor_from(keys: Seq<u64>, target: u8, d: u64, k: int)
    requires
        0 <= k < contributors(keys, target, d).len(),
    ensures
        downsampled_edge(contributors(keys, target, d)[k], target) == Some(d),
        exists|j: int| 0 <= j < keys.len() && keys[j] == contributors(keys, target, d)[k],
{
    let pred = |e: u64| downsampled_edge(e, target) == Some(d);
    keys.lemma_filter_pred(pred, k);
    lemma_filter_from(keys, pred, k);
}

/// Downsampling never gives a graph more edges: when every edge of
/// `downsampled` is the downsampled edge of some edge of `edges` (and every
/// such edge is one of them), as [`downsample_graph`] ensures, there are at
/// most as many of them as there are edges.
pub proof fn lemma_downsample_fewer_edges(edges: Set<u64>, target: u8, downsampled: Set<u64>)
    requires
        edges.finite(),
        forall|d: u64| #[trigger] downsampled.contains(d) <==> exists|e: u64| #[trigger] contributes(edges, target, e, d),
    ensures
        downsampled.finite(),
        downsampled.len() <= edges.len(),
{
    let sources = edges.filter(|e: u64| downsampled_edge(e, target) is Some);
    let f = |e: u64| downsampled_edge(e, target)->0;
    assert forall|d: u64| #[trigger] sources.map(f).contains(d) <==> downsampled.contains(d) by {
        if downsampled.contains(d) {
            let e = choose|e: u64| #[trigger] contributes(edges, target, e, d);
            assert(sources.contains(e) && f(e) == d);
        }
        if sources.map(f).contains(d) {
            let e = choose|e: u64| sources.contains(e) && f(e) == d;
            assert(contributes(edges, target, e, d));
        }
    }
    assert(sources.map(f) =~= downsampled);
    vstd::set_lib::lemma_len_subset(sources, edges);
    vstd::set_lib::lemma_map_size_bound(sources, downsampled, f);
}

/// Changes the resolution of a graph to the lower resolution
/// `target_h3_resolution`.
///
/// Edges whose cells share a parent disappear; the other edges become the
/// edge between the parents. When several edges become the same edge, its
/// weight is `weight_selector_fn` applied to their weights one pair at a
/// time, in the order the edges are visited (see [`selector_fold`]).
///
/// This can change the graph's topology, as several edges are condensed
/// into one, but reduces the number of nodes and edges.
///
/// A target resolution that is not lower than the graph's is refused with
/// `TooHighH3Resolution`.
pub fn downsample_graph<F: Fn(u64, u64) -> u64>(
    graph: &H3EdgeGraph,
    target_h3_resolution: u8,
    weight_selector_fn: F,
) -> (r: Result<H3EdgeGraph, Error>)
    requires
        target_h3_resolution < graph.resolution() ==> can_downsample(graph.edge_map().dom(), target_h3_resolution),
        forall|a: u64, b: u64| weight_selector_fn.requires((a, b)),
    ensures
        target_h3_resolution >= graph.resolution() ==> r == Err::<H3EdgeGraph, Error>(
            Error::TooHighH3Resolution(target_h3_resolution),
        ),
        target_h3_resolution < graph.resolution() ==> r is Ok,
        r matches Ok(g) ==> {
            let edges = graph.edge_map().dom();
            let target = target_h3_resolution;
            &&& g.resolution() == target
            &&& forall|d: u64| #[trigger] g.edge_map().dom().contains(d) <==> exists|e: u64|
                #[trigger] contributes(edges, target, e, d)
            &&& forall|d: u64, e: u64| #[trigger] g.edge_map().dom().contains(d) && #[trigger] contributes(edges, target, e, d)
                && (forall|e2: u64| #[trigger] contributes(edges, target, e2, d) ==> e2 == e)
                ==> g.edge_map()[d] == graph.edge_map()[e]
            &&& (forall|a: u64, b: u64, x: u64| #[trigger] weight_selector_fn.ensures((a, b), x) ==> x == a || x == b)
                ==> forall|d: u64| #[trigger] g.edge_map().dom().contains(d) ==> exists|e: u64|
                #[trigger] contributes(edges, target, e, d) && g.edge_map()[d] == graph.edge_map()[e]
            &&& (forall|a: u64, b: u64, x: u64| #[trigger] weight_selector_fn.ensures((a, b), x) ==> x == (if a <= b { a } else { b }))
                ==> forall|d: u64, e: u64| #[trigger] g.edge_map().dom().contains(d) && #[trigger] contributes(edges, target, e, d)
                ==> g.edge_map()[d] <= graph.edge_map()[e]
            &&& forall|d: u64| #[trigger] g.edge_map().dom().contains(d) ==> exists|es: Seq<u64>| {
                &&& es.no_duplicates()
                &&& (forall|e: u64| #[trigger] es.contains(e) <==> contributes(edges, target, e, d))
                &&& #[trigger] selector_fold(weight_selector_fn, weights_of(graph.edge_map(), es), g.edge_map()[d])
            }
        },
{
    if target_h3_resolution >= graph.h3_resolution {
        return Err(Error::TooHighH3Resolution(target_h3_resolution));
    }
    proof {
        use_type_invariant(graph);
    }
    let ghost edges = graph.edge_map().dom();
    let ghost target = target_h3_resolution;
    let ghost picks = forall|a: u64, b: u64, x: u64| #[trigger] weight_selector_fn.ensures((a, b), x) ==> x == a || x == b;
    let ghost is_min = forall|a: u64, b: u64, x: u64| #[trigger] weight_selector_fn.ensures((a, b), x) ==> x == (if a <= b { a } else { b });
    let entries = graph.edges.entries();
    let ghost keys = entry_keys(entries@);
    let mut downsampled = U64Map::new();
    let n = entries.len();
    for i in 0..n
        invariant
            n == entries@.len(),
            keys == entry_keys(entries@),
            entries_of(entries@, graph.edge_map()),
            edges == graph.edge_map().dom(),
            target == target_h3_resolution,
            target < MAX_RESOLUTION,
            can_downsample(edges, target),
            forall|e: u64| #[trigger] edges.contains(e) ==> h3_is_edge(e),
            forall|a: u64, b: u64| weight_selector_fn.requires((a, b)),
            picks == (forall|a: u64, b: u64, x: u64| #[trigger] weight_selector_fn.ensures((a, b), x) ==> x == a || x == b),
            is_min == (forall|a: u64, b: u64, x: u64| #[trigger] weight_selector_fn.ensures((a, b), x) ==> x == (if a <= b { a } else { b })),
            forall|d: u64| #[trigger] downsampled@.dom().contains(d) <==> exists|j: int|
                0 <= j < i && #[trigger] downsampled_edge(keys[j], target) == Some(d),
            forall|d: u64| #[trigger] downsampled@.dom().contains(d) ==> h3_is_edge(d),
            downsampled@.dom().finite(),
            forall|d: u64, j: int| #![trigger downsampled@[d], keys[j]] 0 <= j < i && downsampled_edge(keys[j], target) == Some(d)
                && (forall|j2: int| 0 <= j2 < i && #[trigger] downsampled_edge(keys[j2], target) == Some(d) ==> j2 == j)
                ==> downsampled@[d] == graph.edge_map()[keys[j]],
            picks ==> forall|d: u64| #[trigger] downsampled@.dom().contains(d) ==> exists|j: int|
                0 <= j < i && #[trigger] downsampled_edge(keys[j], target) == Some(d) && downsampled@[d] == graph.edge_map()[keys[j]],
            is_min ==> forall|d: u64, j: int| #![trigger downsampled@[d], keys[j]] 0 <= j < i && downsampled_edge(keys[j], target) == Some(d)
                ==> downsampled@[d] <= graph.edge_map()[keys[j]],
            forall|d: u64| #[trigger] downsampled@.dom().contains(d) ==> selector_fold(
                weight_selector_fn,
                weights_of(graph.edge_map(), contributors(keys.take(i as int), target, d)),
                downsampled@[d],
            ),
    {
        let (key, weight) = entries[i];
        assert(keys[i as int] == key);
        assert(edges.contains(key) && graph.edge_map()[key] == weight);
        let edge = DirectedEdgeIndex::from_valid(key);
        let (cell_from, cell_to) = edge.cells();
        let parent_from = cell_from.parent(target_h3_resolution);
        let parent_to = cell_to.parent(target_h3_resolution);
        let ghost before = downsampled@;
        match (parent_from, parent_to) {
            (Some(pf), Some(pt)) => {
                if pf.to_u64() != pt.to_u64() {
                    match pf.edge(pt) {
                        Some(de) => {
                            proof {
                                use_type_invariant(&de);
                            }
                            let d = de.to_u64();
                            assert(downsampled_edge(key, target) == Some(d));
                            let ghost m = graph.edge_map();
                            let ghost c = contributors(keys.take(i as int), target, d);
                            proof {
                                lemma_contributors_push(keys, i as int, target, d);
                                assert(weights_of(m, c.push(key)) == weights_of(m, c).push(weight));
                            }
                            match downsampled.get(d) {
                                Some(existing) => {
                                    let selected = weight_selector_fn(existing, weight);
                                    downsampled.insert(d, selected);
                                    proof {
                                        let ws = weights_of(m, c.push(key));
                                        assert(selector_fold(weight_selector_fn, weights_of(m, c), existing));
                                        assert(ws.drop_last() == weights_of(m, c));
                                        assert(ws.last() == weight);
                                        lemma_fold_push(weight_selector_fn, weights_of(m, c), existing, weight, selected);
                                    }
                                },
                                None => {
                                    downsampled.insert(d, weight);
                                    proof {
                                        if c.len() > 0 {
                                            lemma_contributor_from(keys.take(i as int), target, d, 0);
                                            let j = choose|j: int| 0 <= j < keys.take(i as int).len() && keys.take(i as int)[j] == c[0];
                                            assert(keys[j] == keys.take(i as int)[j]);
                                            assert(downsampled_edge(keys[j], target) == Some(d));
                                            assert(before.dom().contains(d));
                                        }
                                        assert(weights_of(m, c.push(key)) =~= seq![weight]);
                                        assert(is_fold_run(weight_selector_fn, seq![weight], seq![weight]));
                                    }
                                },
                            }
                            assert(selector_fold(weight_selector_fn, weights_of(m, contributors(keys.take(i + 1), target, d)), downsampled@[d]));
                            assert forall|d2: u64| #[trigger] downsampled@.dom().contains(d2) implies selector_fold(
                                weight_selector_fn,
                                weights_of(graph.edge_map(), contributors(keys.take(i + 1), target, d2)),
                                downsampled@[d2],
                            ) by {
                                if d2 != d {
                                    lemma_contributors_push(keys, i as int, target, d2);
                                }
                            }
                            assert forall|d2: u64| #[trigger] downsampled@.dom().contains(d2) <==> exists|j: int|
                                0 <= j < i + 1 && #[trigger] downsampled_edge(keys[j], target) == Some(d2) by {
                                if d2 == d {
                                    assert(downsampled_edge(keys[i as int], target) == Some(d2));
                                } else if before.dom().contains(d2) {
                                    let j = choose|j: int| 0 <= j < i && #[trigger] downsampled_edge(keys[j], target) == Some(d2);
                                } else if exists|j: int| 0 <= j < i + 1 && #[trigger] downsampled_edge(keys[j], target) == Some(d2) {
                                    let j = choose|j: int| 0 <= j < i + 1 && #[trigger] downsampled_edge(keys[j], target) == Some(d2);
                                    assert(j < i);
                                }
                            }
                            assert forall|d2: u64, j: int| #![trigger downsampled@[d2], keys[j]] 0 <= j < i + 1 && downsampled_edge(keys[j], target) == Some(d2)
                                && (forall|j2: int| 0 <= j2 < i + 1 && #[trigger] downsampled_edge(keys[j2], target) == Some(d2) ==> j2 == j)
                                implies downsampled@[d2] == graph.edge_map()[keys[j]] by {
                                if d2 == d {
                                    assert(downsampled_edge(keys[i as int], target) == Some(d2));
                                    assert(j == i);
                                    if before.dom().contains(d) {
                                        let j0 = choose|j0: int| 0 <= j0 < i && #[trigger] downsampled_edge(keys[j0], target) == Some(d);
                                        assert(j0 == i);
                                    }
                                } else {
                                    assert(j < i);
                                    assert forall|j2: int| 0 <= j2 < i && #[trigger] downsampled_edge(keys[j2], target) == Some(d2) implies j2 == j by {
                                        assert(0 <= j2 < i + 1);
                                    }
                                }
                            }
                            assert(picks ==> forall|d2: u64| #[trigger] downsampled@.dom().contains(d2) ==> exists|j: int|
                                0 <= j < i + 1 && #[trigger] downsampled_edge(keys[j], target) == Some(d2) && downsampled@[d2] == graph.edge_map()[keys[j]]) by {
                                if picks {
                                    assert forall|d2: u64| #[trigger] downsampled@.dom().contains(d2) implies exists|j: int|
                                        0 <= j < i + 1 && #[trigger] downsampled_edge(keys[j], target) == Some(d2) && downsampled@[d2] == graph.edge_map()[keys[j]] by {
                                        if d2 == d {
                                            if before.dom().contains(d) {
                                                let j0 = choose|j0: int| 0 <= j0 < i && #[trigger] downsampled_edge(keys[j0], target) == Some(d) && before[d] == graph.edge_map()[keys[j0]];
                                                if downsampled@[d] == weight {
                                                    assert(downsampled_edge(keys[i as int], target) == Some(d2));
                                                } else {
                                                    assert(downsampled_edge(keys[j0], target) == Some(d2));
                                                }
                                            } else {
                                                assert(downsampled_edge(keys[i as int], target) == Some(d2));
                                            }
                                        } else {
                                            let j0 = choose|j0: int| 0 <= j0 < i && #[trigger] downsampled_edge(keys[j0], target) == Some(d2) && before[d2] == graph.edge_map()[keys[j0]];
                                            assert(downsampled_edge(keys[j0], target) == Some(d2));
                                        }
                                    }
                                }
                            }
                            assert(is_min ==> forall|d2: u64, j: int| #![trigger downsampled@[d2], keys[j]] 0 <= j < i + 1 && downsampled_edge(keys[j], target) == Some(d2)
                                ==> downsampled@[d2] <= graph.edge_map()[keys[j]]) by {
                                if is_min {
                                    assert forall|d2: u64, j: int| #![trigger downsampled@[d2], keys[j]] 0 <= j < i + 1 && downsampled_edge(keys[j], target) == Some(d2)
                                        implies downsampled@[d2] <= graph.edge_map()[keys[j]] by {
                                        if d2 == d && j < i {
                                            assert(before.dom().contains(d)) by {
                                                assert(downsampled_edge(keys[j], target) == Some(d));
                                            }
                                            assert(before[d] <= graph.edge_map()[keys[j]]);
                                        }
                                    }
                                }
                            }
                        },
                        None => {
                            assert(false);
                        },
                    }
                } else {
                    assert(downsampled_edge(key, target) is None);
                    assert forall|d2: u64| #[trigger] downsampled@.dom().contains(d2) implies selector_fold(
                        weight_selector_fn,
                        weights_of(graph.edge_map(), contributors(keys.take(i + 1), target, d2)),
                        downsampled@[d2],
                    ) by {
                        lemma_contributors_push(keys, i as int, target, d2);
                    }
                    assert forall|d2: u64| #[trigger] downsampled@.dom().contains(d2) <==> exists|j: int|
                        0 <= j < i + 1 && #[trigger] downsampled_edge(keys[j], target) == Some(d2) by {
                        if exists|j: int| 0 <= j < i + 1 && #[trigger] downsampled_edge(keys[j], target) == Some(d2) {
                            let j = choose|j: int| 0 <= j < i + 1 && #[trigger] downsampled_edge(keys[j], target) == Some(d2);
                            assert(j < i);
                        }
                    }
                    assert forall|d2: u64, j: int| #![trigger downsampled@[d2], keys[j]] 0 <= j < i + 1 && downsampled_edge(keys[j], target) == Some(d2)
                        && (forall|j2: int| 0 <= j2 < i + 1 && #[trigger] downsampled_edge(keys[j2], target) == Some(d2) ==> j2 == j)
                        implies downsampled@[d2] == graph.edge_map()[keys[j]] by {
                        assert(j < i);
                        assert forall|j2: int| 0 <= j2 < i && #[trigger] downsampled_edge(keys[j2], target) == Some(d2) implies j2 == j by {
                            assert(0 <= j2 < i + 1);
                        }
                    }
                    assert(picks ==> forall|d2: u64| #[trigger] downsampled@.dom().contains(d2) ==> exists|j: int|
                        0 <= j < i + 1 && #[trigger] downsampled_edge(keys[j], target) == Some(d2) && downsampled@[d2] == graph.edge_map()[keys[j]]) by {
                        if picks {
                            assert forall|d2: u64| #[trigger] downsampled@.dom().contains(d2) implies exists|j: int|
                                0 <= j < i + 1 && #[trigger] downsampled_edge(keys[j], target) == Some(d2) && downsampled@[d2] == graph.edge_map()[keys[j]] by {
                                let j0 = choose|j0: int| 0 <= j0 < i && #[trigger] downsampled_edge(keys[j0], target) == Some(d2) && before[d2] == graph.edge_map()[keys[j0]];
                                assert(downsampled_edge(keys[j0], target) == Some(d2));
                            }
                        }
                    }
                }
            },
            _ => {
                assert(false);
            },
        }
    }
    assert(keys.take(n as int) == keys);
    let g = H3EdgeGraph { edges: downsampled, h3_resolution: target_h3_resolution };
    proof {
        assert forall|e: u64| #[trigger] edges.contains(e) implies exists|j: int| 0 <= j < n && keys[j] == e by {
            let j = choose|j: int| 0 <= j < entries@.len() && entries@[j].0 == e;
            assert(keys[j] == e);
        }
        assert forall|j: int| 0 <= j < n implies edges.contains(#[trigger] keys[j]) by {
            assert(entries@[j].0 == keys[j]);
        }
        assert forall|d: u64| #[trigger] g.edge_map().dom().contains(d) <==> exists|e: u64|
            #[trigger] contributes(edges, target, e, d) by {
            if g.edge_map().dom().contains(d) {
                let j = choose|j: int| 0 <= j < n && #[trigger] downsampled_edge(keys[j], target) == Some(d);
                assert(contributes(edges, target, keys[j], d));
            }
            if exists|e: u64| #[trigger] contributes(edges, target, e, d) {
                let e = choose|e: u64| #[trigger] contributes(edges, target, e, d);
                let j = choose|j: int| 0 <= j < n && keys[j] == e;
                assert(downsampled_edge(keys[j], target) == Some(d));
            }
        }
        assert forall|d: u64, e: u64| #[trigger] g.edge_map().dom().contains(d) && #[trigger] contributes(edges, target, e, d)
            && (forall|e2: u64| #[trigger] contributes(edges, target, e2, d) ==> e2 == e)
            implies g.edge_map()[d] == graph.edge_map()[e] by {
            let j = choose|j: int| 0 <= j < n && keys[j] == e;
            assert forall|j2: int| 0 <= j2 < n && #[trigger] downsampled_edge(keys[j2], target) == Some(d) implies j2 == j by {
                assert(contributes(edges, target, keys[j2], d));
                assert(keys[j2] == e);
                assert(entry_keys(entries@).no_duplicates());
            }
            assert(downsampled@[d] == graph.edge_map()[keys[j]]);
        }
        if picks {
            assert forall|d: u64| #[trigger] g.edge_map().dom().contains(d) implies exists|e: u64|
                #[trigger] contributes(edges, target, e, d) && g.edge_map()[d] == graph.edge_map()[e] by {
                let j = choose|j: int| 0 <= j < n && #[trigger] downsampled_edge(keys[j], target) == Some(d) && downsampled@[d] == graph.edge_map()[keys[j]];
                assert(contributes(edges, target, keys[j], d));
            }
        }
        assert forall|d: u64| #[trigger] g.edge_map().dom().contains(d) implies exists|es: Seq<u64>| {
            &&& es.no_duplicates()
            &&& (forall|e: u64| #[trigger] es.contains(e) <==> contributes(edges, target, e, d))
            &&& #[trigger] selector_fold(weight_selector_fn, weights_of(graph.edge_map(), es), g.edge_map()[d])
        } by {
            let es = contributors(keys, target, d);
            let pred = |e: u64| downsampled_edge(e, target) == Some(d);
            lemma_filter_no_duplicates(keys, pred);
            assert forall|e: u64| #[trigger] es.contains(e) <==> contributes(edges, target, e, d) by {
                if es.contains(e) {
                    let k = choose|k: int| 0 <= k < es.len() && es[k] == e;
                    lemma_contributor_from(keys, target, d, k);
                    let j = choose|j: int| 0 <= j < keys.len() && keys[j] == es[k];
                    assert(edges.contains(keys[j]));
                }
                if contributes(edges, target, e, d) {
                    let j = choose|j: int| 0 <= j < n && keys[j] == e;
                    keys.lemma_filter_contains(pred, j);
                }
            }
            assert(selector_fold(weight_selector_fn, weights_of(graph.edge_map(), es), g.edge_map()[d]));
        }
        if is_min {
            assert forall|d: u64, e: u64| #[trigger] g.edge_map().dom().contains(d) && #[trigger] contributes(edges, target, e, d)
                implies g.edge_map()[d] <= graph.edge_map()[e] by {
                let j = choose|j: int| 0 <= j < n && keys[j] == e;
                assert(downsampled_edge(keys[j], target) == Some(d));
                assert(downsampled@[d] <= graph.edge_map()[keys[j]]);
            }
        }
    }
    Ok(g)
}

/// Checks, edge by edge, that every edge can be brought to `target`.
fn check_can_downsample(graph: &H3EdgeGraph, target: u8) -> (r: bool)
    requires
        target <= MAX_RESOLUTION,
    ensures
        r == can_downsample(graph.edge_map().dom(), target),
{
    proof {
        use_type_invariant(graph);
    }
    let entries = graph.edges.entries();
    let ghost keys = entry_keys(entries@);
    let ghost edges = graph.edge_map().dom();
    let n = entries.len();
    for i in 0..n
        invariant
            n == entries@.len(),
            keys == entry_keys(entries@),
            entries_of(entries@, graph.edge_map()),
            edges == graph.edge_map().dom(),
            target <= MAX_RESOLUTION,
            forall|e: u64| #[trigger] edges.contains(e) ==> h3_is_edge(e),
            forall|j: int| 0 <= j < i ==> #[trigger] can_downsample(set![keys[j]], target),
    {
        let (key, _) = entries[i];
        assert(keys[i as int] == key);
        assert(edges.contains(key));
        let edge = DirectedEdgeIndex::from_valid(key);
        let (cell_from, cell_to) = edge.cells();
        let ok = match (cell_from.parent(target), cell_to.parent(target)) {
            (Some(pf), Some(pt)) => pf.to_u64() == pt.to_u64() || pf.edge(pt).is_some(),
            _ => false,
        };
        if !ok {
            assert(!can_downsample(edges, target)) by {
                assert(edges.contains(key));
            }
            return false;
        }
        assert(can_downsample(set![keys[i as int]], target));
    }
    assert forall|e: u64| #[trigger] edges.contains(e) implies {
        &&& h3_parent(h3_edge_origin(e), target) is Some
        &&& h3_parent(h3_edge_destination(e), target) is Some
        &&& h3_parent(h3_edge_origin(e), target) != h3_parent(h3_edge_destination(e), target)
            ==> h3_edge_between(
            h3_parent(h3_edge_origin(e), target)->0,
            h3_parent(h3_edge_destination(e), target)->0,
        ) is Some
    } by {
        let j = choose|j: int| 0 <= j < entries@.len() && entries@[j].0 == e;
        assert(keys[j] == e);
        assert(can_downsample(set![keys[j]], target));
        assert(set![keys[j]].contains(e));
    }
    true
}

/// [`downsample_graph`] for any graph: `None` when some edge cannot be
/// brought to the target resolution (a cell without parent there, or
/// parents that are not neighbors).
pub fn try_downsample_graph<F: Fn(u64, u64) -> u64>(
    graph: &H3EdgeGraph,
    target_h3_resolution: u8,
    weight_selector_fn: F,
) -> (r: Option<Result<H3EdgeGraph, Error>>)
    requires
        forall|a: u64, b: u64| weight_selector_fn.requires((a, b)),
    ensures
        target_h3_resolution >= graph.resolution() ==> r == Some(Err::<H3EdgeGraph, Error>(
            Error::TooHighH3Resolution(target_h3_resolution),
        )),
        target_h3_resolution < graph.resolution() ==> (r is None <==> !can_downsample(
            graph.edge_map().dom(),
            target_h3_resolution,
        )),
        target_h3_resolution < graph.resolution() && can_downsample(graph.edge_map().dom(), target_h3_resolution)
            ==> r matches Some(Ok(_)),
        r matches Some(Ok(g)) ==> {
            let edges = graph.edge_map().dom();
            let target = target_h3_resolution;
            &&& g.resolution() == target
            &&& forall|d: u64| #[trigger] g.edge_map().dom().contains(d) <==> exists|e: u64|
                #[trigger] contributes(edges, target, e, d)
            &&& forall|d: u64, e: u64| #[trigger] g.edge_map().dom().contains(d) && #[trigger] contributes(edges, target, e, d)
                && (forall|e2: u64| #[trigger] contributes(edges, target, e2, d) ==> e2 == e)
                ==> g.edge_map()[d] == graph.edge_map()[e]
            &&& (forall|a: u64, b: u64, x: u64| #[trigger] weight_selector_fn.ensures((a, b), x) ==> x == a || x == b)
                ==> forall|d: u64| #[trigger] g.edge_map().dom().contains(d) ==> exists|e: u64|
                #[trigger] contributes(edges, target, e, d) && g.edge_map()[d] == graph.edge_map()[e]
            &&& (forall|a: u64, b: u64, x: u64| #[trigger] weight_selector_fn.ensures((a, b), x) ==> x == (if a <= b { a } else { b }))
                ==> forall|d: u64, e: u64| #[trigger] g.edge_map().dom().contains(d) && #[trigger] contributes(edges, target, e, d)
                ==> g.edge_map()[d] <= graph.edge_map()[e]
            &&& forall|d: u64| #[trigger] g.edge_map().dom().contains(d) ==> exists|es: Seq<u64>| {
                &&& es.no_duplicates()
                &&& (forall|e: u64| #[trigger] es.contains(e) <==> contributes(edges, target, e, d))
                &&& #[trigger] selector_fold(weight_selector_fn, weights_of(graph.edge_map(), es), g.edge_map()[d])
            }
        },
{
    if target_h3_resolution >= graph.h3_resolution {
        return Some(Err(Error::TooHighH3Resolution(target_h3_resolution)));
    }
    proof {
        use_type_invariant(graph);
    }
    if !check_can_downsample(graph, target_h3_resolution) {
        return None;
    }
    Some(downsample_graph(graph, target_h3_resolution, weight_selector_fn))
}

} // verus!
