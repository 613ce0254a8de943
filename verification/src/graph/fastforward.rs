//! Fast-forwards: continuous paths of edges compressed into one shortcut.
use vstd::prelude::*;
use crate::h3::{CellIndex, DirectedEdgeIndex, edges_view, cells_view, index_values, dedup, dedup_consecutive, h3_edge_origin, h3_edge_destination};
use crate::treemap::H3Treemap;
use crate::error::Error;
use crate::algorithm::geom::{edges_to_cell_lines, cell_lines, edge_cell_tuples};

verus! {

/// The cells traversed by a continuous path of edges: the origin of the
/// first edge, then the destination of every edge.
pub open spec fn cell_path(edges: Seq<u64>) -> Seq<u64> {
    if edges.len() == 0 {
        Seq::empty()
    } else {
        seq![h3_edge_origin(edges[0])] + edges.map_values(|e: u64| h3_edge_destination(e))
    }
}

/// The cells traversed by a continuous path of edges: the origin of the
/// first edge, then the destination of every edge.
pub fn h3edge_path_to_h3cell_path(h3edge_path: &Vec<DirectedEdgeIndex>) -> (r: Vec<CellIndex>)
    ensures
        cells_view(r@) == cell_path(edges_view(h3edge_path@)),
{
    let mut out: Vec<CellIndex> = Vec::new();
    let n = h3edge_path.len();
    if n == 0 {
        return out;
    }
    let ghost ev = edges_view(h3edge_path@);
    out.push(h3edge_path[0].origin());
    for i in 0..n
        invariant
            n == h3edge_path@.len(),
            n > 0,
            ev == edges_view(h3edge_path@),
            cells_view(out@) == seq![h3_edge_origin(ev[0])] + ev.take(i as int).map_values(
                |e: u64| h3_edge_destination(e),
            ),
    {
        let ghost before = out@;
        out.push(h3edge_path[i].destination());
        assert(ev.take(i + 1) == ev.take(i as int).push(ev[i as int]));
        assert(cells_view(out@) == cells_view(before).push(h3_edge_destination(ev[i as int])));
        assert(ev.take(i + 1).map_values(|e: u64| h3_edge_destination(e)) == ev.take(
            i as int,
        ).map_values(|e: u64| h3_edge_destination(e)).push(h3_edge_destination(ev[i as int])));
    }
    assert(ev.take(n as int) == ev);
    out
}

/// A continuous path of directed edges combined into a single shortcut
/// edge, to reduce the number of nodes to visit while routing.
pub struct FastForward {
    in_edge: DirectedEdgeIndex,
    out_edge: DirectedEdgeIndex,
    /// the path of the fast-forward: successive directed edges.
    edge_path: Vec<DirectedEdgeIndex>,
    /// the cells of the path, for an efficient intersection check.
    cell_lookup: H3Treemap<CellIndex>,
}

impl FastForward {
    /// The edge path of the fast-forward.
    pub closed spec fn path(&self) -> Seq<u64> {
        edges_view(self.edge_path@)
    }

    /// The cells of the fast-forward's path, as held for lookups.
    pub closed spec fn lookup_cells(&self) -> Set<u64> {
        self.cell_lookup@
    }

    /// The path has at least two edges, starts with the in-edge, ends with
    /// the out-edge, and the lookup holds the cells of the path.
    #[verifier::type_invariant]
    pub closed spec fn inv(&self) -> bool {
        &&& self.edge_path@.len() >= 2
        &&& self.in_edge == self.edge_path@[0]
        &&& self.out_edge == self.edge_path@[self.edge_path@.len() - 1]
        &&& self.cell_lookup@ == cell_path(edges_view(self.edge_path@)).to_set()
    }

    /// The type's invariant, stated over its views.
    pub proof fn lemma_inv(ff: FastForward)
        requires
            ff.inv(),
        ensures
            ff.path().len() >= 2,
            ff.lookup_cells() == cell_path(ff.path()).to_set(),
    {
    }

    /// The first edge of the path.
    pub fn in_edge(&self) -> (r: DirectedEdgeIndex)
        ensures
            r@ == self.path()[0],
    {
        proof {
            use_type_invariant(self);
        }
        self.in_edge
    }

    /// The last edge of the path.
    pub fn out_edge(&self) -> (r: DirectedEdgeIndex)
        ensures
            r@ == self.path()[self.path().len() - 1],
    {
        proof {
            use_type_invariant(self);
        }
        self.out_edge
    }

    /// The edge path.
    pub fn edge_path(&self) -> (r: &Vec<DirectedEdgeIndex>)
        ensures
            edges_view(r@) == self.path(),
            self.path().len() >= 2,
    {
        proof {
            use_type_invariant(self);
        }
        &self.edge_path
    }

    /// The cell the fast-forward leads to.
    pub fn destination_cell(&self) -> (r: CellIndex)
        ensures
            r@ == h3_edge_destination(self.path()[self.path().len() - 1]),
    {
        self.out_edge().destination()
    }

    /// The cell the fast-forward starts at.
    pub fn origin_cell(&self) -> (r: CellIndex)
        ensures
            r@ == h3_edge_origin(self.path()[0]),
    {
        self.in_edge().origin()
    }

    /// Whether no cell of the path is in `celltreemap`.
    pub fn is_disjoint(&self, celltreemap: &H3Treemap<CellIndex>) -> (r: bool)
        ensures
            r == cell_path(self.path()).to_set().disjoint(celltreemap@),
    {
        proof {
            use_type_invariant(self);
        }
        self.cell_lookup.is_disjoint(celltreemap)
    }

    /// The length of the fast-forward: one less than the number of entries
    /// of its edge path.
    pub fn h3edges_len(&self) -> (r: usize)
        ensures
            r == self.path().len() - 1,
    {
        proof {
            use_type_invariant(self);
        }
        self.edge_path.len() - 1
    }

    /// The cells of the fast-forward's line. Fails with `SegmentedPath`
    /// unless the edges form exactly one continuous line.
    pub fn to_cell_line(&self) -> (r: Result<Vec<CellIndex>, Error>)
        ensures
            cell_lines(edge_cell_tuples(self.path())).len() == 1 ==> (r matches Ok(line) && cells_view(line@)
                == cell_lines(edge_cell_tuples(self.path()))[0]),
            cell_lines(edge_cell_tuples(self.path())).len() != 1 ==> r == Err::<Vec<CellIndex>, Error>(Error::SegmentedPath),
    {
        let mut lines = edges_to_cell_lines(&self.edge_path);
        assert(self.edge_path@.map_values(|e: DirectedEdgeIndex| e@) == self.path());
        if lines.len() != 1 {
            Err(Error::SegmentedPath)
        } else {
            let line = lines.swap_remove(0);
            Ok(line)
        }
    }

    /// Builds a fast-forward from a path of directed edges. Consecutive
    /// repeated edges are removed first; fewer than two remaining edges are
    /// refused with `InsufficientNumberOfEdges`.
    pub fn try_from_edges(h3edges: &Vec<DirectedEdgeIndex>) -> (r: Result<FastForward, Error>)
        ensures
            dedup_consecutive(edges_view(h3edges@)).len() >= 2 ==> (r matches Ok(ff) && ff.path()
                == dedup_consecutive(edges_view(h3edges@))),
            dedup_consecutive(edges_view(h3edges@)).len() < 2 ==> r == Err::<FastForward, Error>(
                Error::InsufficientNumberOfEdges,
            ),
    {
        let edges = dedup(h3edges);
        assert(index_values(edges@) == edges_view(edges@));
        assert(index_values(h3edges@) == edges_view(h3edges@));
        if edges.len() >= 2 {
            let cells = h3edge_path_to_h3cell_path(&edges);
            let cell_lookup = H3Treemap::from_indexes(&cells);
            assert(index_values(cells@) == cells_view(cells@));
            let in_edge = edges[0];
            let out_edge = edges[edges.len() - 1];
            Ok(FastForward { in_edge, out_edge, edge_path: edges, cell_lookup })
        } else {
            Err(Error::InsufficientNumberOfEdges)
        }
    }

    /// A copy of the fast-forward.
    pub fn clone(&self) -> (r: FastForward)
        ensures
            r.path() == self.path(),
    {
        proof {
            use_type_invariant(self);
        }
        let mut edge_path: Vec<DirectedEdgeIndex> = Vec::new();
        let n = self.edge_path.len();
        for i in 0..n
            invariant
                n == self.edge_path@.len(),
                edge_path@ == self.edge_path@.take(i as int),
        {
            edge_path.push(self.edge_path[i]);
            assert(self.edge_path@.take(i + 1) == self.edge_path@.take(i as int).push(self.edge_path@[i as int]));
        }
        assert(self.edge_path@.take(n as int) == self.edge_path@);
        FastForward {
            in_edge: self.in_edge,
            out_edge: self.out_edge,
            edge_path,
            cell_lookup: self.cell_lookup.clone(),
        }
    }
}

} // verus!
