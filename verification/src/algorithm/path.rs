//! Paths between cells.
use vstd::prelude::*;
use std::cmp::Ordering;
use crate::h3::{CellIndex, DirectedEdgeIndex, cells_view, edges_view, index_values, dedup, dedup_consecutive, h3_edge_origin, h3_edge_destination};
use crate::algorithm::edge::edges_are_continuous;
use crate::algorithm::geom::{edges_to_cell_lines, cell_lines, edge_cell_tuples, lemma_one_line_iff_continuous, tuples_continuous, continuous_line};
use crate::error::Error;

verus! {

/// A path between a cell and another.
#[derive(Debug, Clone, PartialEq, Eq)]
pub enum DirectedEdgePath {
    /// The path is empty as origin and destination are the same.
    OriginIsDestination(CellIndex),
    /// A sequence of edges, expected to be consecutive.
    DirectedEdgeSequence(Vec<DirectedEdgeIndex>),
}

/// What a path's line is made of: a single edge, or the cells of a line of
/// several edges.
#[derive(Debug, Clone, PartialEq, Eq)]
pub enum PathLine {
    Edge(DirectedEdgeIndex),
    Cells(Vec<CellIndex>),
}

/// The edges of a path.
pub open spec fn path_edges(p: DirectedEdgePath) -> Seq<u64> {
    match p {
        DirectedEdgePath::OriginIsDestination(_) => Seq::empty(),
        DirectedEdgePath::DirectedEdgeSequence(edges) => edges_view(edges@),
    }
}

/// The origin cell of a path; `None` for an empty edge sequence.
pub open spec fn path_origin(p: DirectedEdgePath) -> Option<u64> {
    match p {
        DirectedEdgePath::OriginIsDestination(cell) => Some(cell@),
        DirectedEdgePath::DirectedEdgeSequence(edges) => if edges@.len() > 0 {
            Some(h3_edge_origin(edges@[0]@))
        } else {
            None
        },
    }
}

/// The destination cell of a path; `None` for an empty edge sequence.
pub open spec fn path_destination(p: DirectedEdgePath) -> Option<u64> {
    match p {
        DirectedEdgePath::OriginIsDestination(cell) => Some(cell@),
        DirectedEdgePath::DirectedEdgeSequence(edges) => if edges@.len() > 0 {
            Some(h3_edge_destination(edges@[edges@.len() - 1]@))
        } else {
            None
        },
    }
}

/// The origin and destination cells of each edge, one after the other.
pub open spec fn edge_endpoints(edges: Seq<u64>) -> Seq<u64>
    decreases edges.len(),
{
    if edges.len() == 0 {
        Seq::empty()
    } else {
        edge_endpoints(edges.drop_last()).push(h3_edge_origin(edges.last())).push(h3_edge_destination(edges.last()))
    }
}

/// The cells of a continuous path of `n` edges, none of which starts and
/// ends at the same cell, are its first origin and then the destination of
/// each edge: `n + 1` cells. No directed edge index ends where it starts, so
/// [`DirectedEdgePath::cells`] states this of every continuous path.
pub proof fn lemma_continuous_path_cells(edges: Seq<u64>)
    requires
        edges.len() > 0,
        edges_are_continuous(edges),
        forall|k: int| 0 <= k < edges.len() ==> h3_edge_origin(#[trigger] edges[k]) != h3_edge_destination(edges[k]),
    ensures
        dedup_consecutive(edge_endpoints(edges)) == Seq::new(
            edges.len() + 1,
            |i: int| if i == 0 { h3_edge_origin(edges[0]) } else { h3_edge_destination(edges[i - 1]) },
        ),
    decreases edges.len(),
{
    let n = edges.len() as int;
    let last = edges[n - 1];
    let init = edges.drop_last();
    let ep = edge_endpoints(edges);
    let ei = edge_endpoints(init);
    assert(edges.last() == last);
    assert(ep == ei.push(h3_edge_origin(last)).push(h3_edge_destination(last)));
    if n == 1 {
        assert(ei == Seq::<u64>::empty());
        assert(ep =~= seq![h3_edge_origin(last), h3_edge_destination(last)]);
        assert(dedup_consecutive(ep.drop_last()) == ep.drop_last());
        assert(dedup_consecutive(ep) =~= Seq::new(2, |i: int| if i == 0 { h3_edge_origin(edges[0]) } else { h3_edge_destination(edges[i - 1]) }));
    } else {
        assert forall|k: int| 0 <= k < init.len() - 1 implies h3_edge_destination(#[trigger] init[k]) == h3_edge_origin(init[k + 1]) by {
            assert(init[k] == edges[k] && init[k + 1] == edges[k + 1]);
        }
        assert forall|k: int| 0 <= k < init.len() implies h3_edge_origin(#[trigger] init[k]) != h3_edge_destination(init[k]) by {
            assert(init[k] == edges[k]);
        }
        lemma_continuous_path_cells(init);
        lemma_edge_endpoints_last(init);
        assert(h3_edge_destination(edges[n - 2]) == h3_edge_origin(last));
        let eo = ei.push(h3_edge_origin(last));
        assert(eo.drop_last() == ei);
        assert(eo[eo.len() - 2] == ei.last());
        assert(dedup_consecutive(eo) == dedup_consecutive(ei));
        assert(ep.drop_last() == eo);
        assert(ep[ep.len() - 2] == h3_edge_origin(last));
        assert(dedup_consecutive(ep) == dedup_consecutive(ei).push(h3_edge_destination(last)));
        assert(dedup_consecutive(ep) =~= Seq::new(
            edges.len() + 1,
            |i: int| if i == 0 { h3_edge_origin(edges[0]) } else { h3_edge_destination(edges[i - 1]) },
        ));
    }
}

/// The cells of the line of a continuous path of edges: the first origin,
/// then the destination of each edge.
pub open spec fn continuous_path_line(edges: Seq<u64>) -> Seq<u64> {
    Seq::new(edges.len() + 1, |i: int| if i == 0 { h3_edge_origin(edges[0]) } else { h3_edge_destination(edges[i - 1]) })
}

/// A path of two or more edges makes one line (what [`DirectedEdgePath::to_line`]
/// returns as `PathLine::Cells`) exactly when each edge starts where the one
/// before it ends; that line runs through the first origin and then every
/// destination, and otherwise the edges make several lines (`SegmentedPath`).
pub proof fn lemma_path_one_line_iff_continuous(p: DirectedEdgePath)
    requires
        path_edges(p).len() > 1,
    ensures
        cell_lines(edge_cell_tuples(path_edges(p))).len() == 1 <==> edges_are_continuous(path_edges(p)),
        edges_are_continuous(path_edges(p)) ==> cell_lines(edge_cell_tuples(path_edges(p)))[0] == continuous_path_line(path_edges(p)),
        !edges_are_continuous(path_edges(p)) ==> cell_lines(edge_cell_tuples(path_edges(p))).len() > 1,
{
    let es = path_edges(p);
    let t = edge_cell_tuples(es);
    lemma_one_line_iff_continuous(t);
    assert(tuples_continuous(t) <==> edges_are_continuous(es)) by {
        if tuples_continuous(t) {
            assert forall|k: int| 0 <= k < es.len() - 1 implies h3_edge_destination(#[trigger] es[k]) == h3_edge_origin(es[k + 1]) by {
                assert(t[k].1 == t[k + 1].0);
            }
        }
        if edges_are_continuous(es) {
            assert forall|k: int| 0 <= k < t.len() - 1 implies (#[trigger] t[k]).1 == t[k + 1].0 by {
                assert(h3_edge_destination(es[k]) == h3_edge_origin(es[k + 1]));
            }
        }
    }
    assert(continuous_line(t) =~= continuous_path_line(es));
}

/// The last endpoint of nonempty edges is the destination of the last edge.
proof fn lemma_edge_endpoints_last(edges: Seq<u64>)
    requires
        edges.len() > 0,
    ensures
        edge_endpoints(edges).len() == 2 * edges.len(),
        edge_endpoints(edges).last() == h3_edge_destination(edges.last()),
    decreases edges.len(),
{
    if edges.len() > 1 {
        lemma_edge_endpoints_last(edges.drop_last());
    } else {
        assert(edge_endpoints(edges.drop_last()) == Seq::<u64>::empty());
    }
}

/// Collapsing runs keeps the first and the last value.
proof fn lemma_dedup_consecutive_ends(s: Seq<u64>)
    requires
        s.len() > 0,
    ensures
        dedup_consecutive(s).len() > 0,
        dedup_consecutive(s)[0] == s[0],
        dedup_consecutive(s).last() == s.last(),
    decreases s.len(),
{
    if s.len() > 1 {
        let init = s.drop_last();
        lemma_dedup_consecutive_ends(init);
        assert(init[0] == s[0]);
        assert(init.last() == s[s.len() - 2]);
    }
}

/// The cells a path passes start at its origin and end at its destination;
/// a path without edges that stays at a cell passes that cell only.
pub proof fn lemma_path_cells_ends(p: DirectedEdgePath)
    ensures
        path_origin(p) matches Some(o) ==> path_cells(p).len() > 0 && path_cells(p)[0] == o,
        path_destination(p) matches Some(d) ==> path_cells(p).len() > 0 && path_cells(p).last() == d,
        p matches DirectedEdgePath::OriginIsDestination(c) ==> path_cells(p) == seq![c@],
        path_edges(p).len() == 0 ==> path_cells(p).len() <= 1,
{
    if let DirectedEdgePath::DirectedEdgeSequence(edges) = p {
        let ev = edges_view(edges@);
        if ev.len() > 0 {
            lemma_edge_endpoints_last(ev);
            let ep = edge_endpoints(ev);
            assert(ep[0] == h3_edge_origin(ev[0])) by {
                lemma_edge_endpoints_first(ev);
            }
            lemma_dedup_consecutive_ends(ep);
            assert(ev[0] == edges@[0]@);
            assert(ev.last() == edges@[edges@.len() - 1]@);
        } else {
            assert(edge_endpoints(ev) == Seq::<u64>::empty());
        }
    }
}

/// The first endpoint of nonempty edges is the origin of the first edge.
proof fn lemma_edge_endpoints_first(edges: Seq<u64>)
    requires
        edges.len() > 0,
    ensures
        edge_endpoints(edges).len() > 0,
        edge_endpoints(edges)[0] == h3_edge_origin(edges[0]),
    decreases edges.len(),
{
    if edges.len() > 1 {
        lemma_edge_endpoints_first(edges.drop_last());
        assert(edges.drop_last()[0] == edges[0]);
    } else {
        assert(edge_endpoints(edges.drop_last()) == Seq::<u64>::empty());
    }
}

/// The cells a path passes through.
pub open spec fn path_cells(p: DirectedEdgePath) -> Seq<u64> {
    match p {
        DirectedEdgePath::OriginIsDestination(cell) => seq![cell@],
        DirectedEdgePath::DirectedEdgeSequence(edges) => dedup_consecutive(edge_endpoints(edges_view(edges@))),
    }
}

/// The key paths are ordered by: the origin index, then the destination
/// index, a missing cell counting as zero.
pub open spec fn path_order_key(p: DirectedEdgePath) -> (u64, u64) {
    (
        match path_origin(p) {
            Some(c) => c,
            None => 0,
        },
        match path_destination(p) {
            Some(c) => c,
            None => 0,
        },
    )
}

/// Lexicographic order of pairs.
pub open spec fn pair_less(a: (u64, u64), b: (u64, u64)) -> bool {
    a.0 < b.0 || (a.0 == b.0 && a.1 < b.1)
}

/// The order of paths is a total order of their keys: of two paths exactly
/// one is less, equal or greater, no path is less than itself, and the
/// order is transitive; so sorting gives the same sequence of keys whatever
/// order the paths came in.
pub proof fn lemma_path_order_total(a: DirectedEdgePath, b: DirectedEdgePath, c: DirectedEdgePath)
    ensures
        pair_less(path_order_key(a), path_order_key(b)) || path_order_key(a) == path_order_key(b)
            || pair_less(path_order_key(b), path_order_key(a)),
        !(pair_less(path_order_key(a), path_order_key(b)) && pair_less(path_order_key(b), path_order_key(a))),
        !pair_less(path_order_key(a), path_order_key(a)),
        pair_less(path_order_key(a), path_order_key(b)) && pair_less(path_order_key(b), path_order_key(c))
            ==> pair_less(path_order_key(a), path_order_key(c)),
{
}

impl DirectedEdgePath {
    /// Whether the path has no edges.
    pub fn is_empty(&self) -> (r: bool)
        ensures
            r == (path_edges(*self).len() == 0),
    {
        match self {
            DirectedEdgePath::OriginIsDestination(_) => true,
            DirectedEdgePath::DirectedEdgeSequence(edges) => edges.len() == 0,
        }
    }

    /// The length of the path in number of edges.
    pub fn len(&self) -> (r: usize)
        ensures
            r == path_edges(*self).len(),
    {
        match self {
            DirectedEdgePath::OriginIsDestination(_) => 0,
            DirectedEdgePath::DirectedEdgeSequence(edges) => edges.len(),
        }
    }

    /// The cell the path starts at. An empty edge sequence fails with `EmptyPath`.
    pub fn origin_cell(&self) -> (r: Result<CellIndex, Error>)
        ensures
            match path_origin(*self) {
                Some(c) => r matches Ok(cell) && cell@ == c,
                None => r == Err::<CellIndex, Error>(Error::EmptyPath),
            },
    {
        match self {
            DirectedEdgePath::OriginIsDestination(cell) => Ok(*cell),
            DirectedEdgePath::DirectedEdgeSequence(edges) => {
                if edges.len() > 0 {
                    Ok(edges[0].origin())
                } else {
                    Err(Error::EmptyPath)
                }
            },
        }
    }

    /// The cell the path ends at. An empty edge sequence fails with `EmptyPath`.
    pub fn destination_cell(&self) -> (r: Result<CellIndex, Error>)
        ensures
            match path_destination(*self) {
                Some(c) => r matches Ok(cell) && cell@ == c,
                None => r == Err::<CellIndex, Error>(Error::EmptyPath),
            },
    {
        match self {
            DirectedEdgePath::OriginIsDestination(cell) => Ok(*cell),
            DirectedEdgePath::DirectedEdgeSequence(edges) => {
                if edges.len() > 0 {
                    Ok(edges[edges.len() - 1].destination())
                } else {
                    Err(Error::EmptyPath)
                }
            },
        }
    }

    /// What the line of the path is made of: its single edge, or the cells
    /// of its edges when they form one continuous line. A path without
    /// edges fails with `InsufficientNumberOfEdges`, a path of several lines
    /// with `SegmentedPath`.
    pub fn to_line(&self) -> (r: Result<PathLine, Error>)
        ensures
            path_edges(*self).len() == 0 ==> r == Err::<PathLine, Error>(Error::InsufficientNumberOfEdges),
            path_edges(*self).len() == 1 ==> (r matches Ok(PathLine::Edge(e)) && e@ == path_edges(*self)[0]),
            path_edges(*self).len() > 1 ==> {
                let lines = cell_lines(edge_cell_tuples(path_edges(*self)));
                &&& lines.len() == 0 ==> r == Err::<PathLine, Error>(Error::InsufficientNumberOfEdges)
                &&& lines.len() == 1 ==> (r matches Ok(PathLine::Cells(cells)) && cells_view(cells@) == lines[0])
                &&& lines.len() > 1 ==> r == Err::<PathLine, Error>(Error::SegmentedPath)
            },
    {
        match self {
            DirectedEdgePath::OriginIsDestination(_) => Err(Error::InsufficientNumberOfEdges),
            DirectedEdgePath::DirectedEdgeSequence(edges) => {
                if edges.len() == 0 {
                    Err(Error::InsufficientNumberOfEdges)
                } else if edges.len() == 1 {
                    Ok(PathLine::Edge(edges[0]))
                } else {
                    let mut lines = edges_to_cell_lines(edges);
                    assert(edges@.map_values(|e: DirectedEdgeIndex| e@) == edges_view(edges@));
                    if lines.len() == 0 {
                        Err(Error::InsufficientNumberOfEdges)
                    } else if lines.len() == 1 {
                        Ok(PathLine::Cells(lines.swap_remove(0)))
                    } else {
                        Err(Error::SegmentedPath)
                    }
                }
            },
        }
    }

    /// The edges of the path.
    pub fn edges(&self) -> (r: Vec<DirectedEdgeIndex>)
        ensures
            edges_view(r@) == path_edges(*self),
    {
        match self {
            DirectedEdgePath::OriginIsDestination(_) => Vec::new(),
            DirectedEdgePath::DirectedEdgeSequence(edges) => {
                let mut out: Vec<DirectedEdgeIndex> = Vec::new();
                let n = edges.len();
                for i in 0..n
                    invariant
                        n == edges@.len(),
                        out@ == edges@.take(i as int),
                {
                    out.push(edges[i]);
                    assert(edges@.take(i + 1) == edges@.take(i as int).push(edges@[i as int]));
                }
                assert(edges@.take(n as int) == edges@);
                out
            },
        }
    }

    /// The cells the path passes through: the origin and destination of
    /// every edge, without consecutive repetitions.
    pub fn cells(&self) -> (r: Vec<CellIndex>)
        ensures
            cells_view(r@) == path_cells(*self),
            path_edges(*self).len() > 0 && edges_are_continuous(path_edges(*self))
                ==> cells_view(r@) == continuous_path_line(path_edges(*self)),
    {
        match self {
            DirectedEdgePath::OriginIsDestination(cell) => {
                let mut out: Vec<CellIndex> = Vec::new();
                out.push(*cell);
                assert(cells_view(out@) == seq![cell@]);
                out
            },
            DirectedEdgePath::DirectedEdgeSequence(edges) => {
                let ghost ev = edges_view(edges@);
                let mut cells: Vec<CellIndex> = Vec::new();
                let n = edges.len();
                for i in 0..n
                    invariant
                        n == edges@.len(),
                        ev == edges_view(edges@),
                        cells_view(cells@) == edge_endpoints(ev.take(i as int)),
                        forall|k: int| 0 <= k < i ==> h3_edge_origin(#[trigger] ev[k]) != h3_edge_destination(ev[k]),
                {
                    let (origin, destination) = edges[i].cells();
                    assert(ev[i as int] == edges@[i as int]@);
                    cells.push(origin);
                    cells.push(destination);
                    assert(ev.take(i + 1).drop_last() == ev.take(i as int));
                    assert(ev.take(i + 1).last() == ev[i as int]);
                }
                assert(ev.take(n as int) == ev);
                let deduped = dedup(&cells);
                assert(index_values(cells@) == cells_view(cells@));
                assert(index_values(deduped@) == cells_view(deduped@));
                proof {
                    if ev.len() > 0 && edges_are_continuous(ev) {
                        lemma_continuous_path_cells(ev);
                        assert(continuous_path_line(ev) =~= Seq::new(
                            ev.len() + 1,
                            |j: int| if j == 0 { h3_edge_origin(ev[0]) } else { h3_edge_destination(ev[j - 1]) },
                        ));
                    }
                }
                deduped
            },
        }
    }

    /// Compares two paths by the index of their origin cell, then by the
    /// index of their destination cell; an empty edge sequence counts as
    /// index zero.
    pub fn cmp(&self, other: &DirectedEdgePath) -> (r: Ordering)
        ensures
            (r == Ordering::Less) == pair_less(path_order_key(*self), path_order_key(*other)),
            (r == Ordering::Equal) == (path_order_key(*self) == path_order_key(*other)),
            (r == Ordering::Greater) == pair_less(path_order_key(*other), path_order_key(*self)),
    {
        let (a0, a1) = self.order_key();
        let (b0, b1) = other.order_key();
        if a0 < b0 {
            Ordering::Less
        } else if a0 > b0 {
            Ordering::Greater
        } else if a1 < b1 {
            Ordering::Less
        } else if a1 > b1 {
            Ordering::Greater
        } else {
            Ordering::Equal
        }
    }

    /// The order of two paths, as given by [`DirectedEdgePath::cmp`].
    pub fn partial_cmp(&self, other: &DirectedEdgePath) -> (r: Option<Ordering>)
        ensures
            r matches Some(o) && ((o == Ordering::Less) == pair_less(path_order_key(*self), path_order_key(*other)))
                && ((o == Ordering::Equal) == (path_order_key(*self) == path_order_key(*other)))
                && ((o == Ordering::Greater) == pair_less(path_order_key(*other), path_order_key(*self))),
    {
        Some(self.cmp(other))
    }

    /// The indexes of the origin and destination cells, zero where missing.
    fn order_key(&self) -> (r: (u64, u64))
        ensures
            r == path_order_key(*self),
    {
        (index_or_zero(self.origin_cell()), index_or_zero(self.destination_cell()))
    }
}

/// The index of a cell, or zero when there is none.
fn index_or_zero(cell: Result<CellIndex, Error>) -> (r: u64)
    ensures
        r == (match cell {
            Ok(c) => c@,
            Err(_) => 0,
        }),
{
    match cell {
        Ok(c) => c.to_u64(),
        Err(_) => 0,
    }
}

/// A path between a cell and another with its cost.
#[derive(Debug, Clone, PartialEq, Eq)]
pub struct Path {
    /// The cell the path starts at.
    pub origin_cell: CellIndex,
    /// The cell the path ends at.
    pub destination_cell: CellIndex,
    pub cost: u64,
    /// The path itself.
    pub directed_edge_path: DirectedEdgePath,
}

/// `a` comes before `b`: it costs less, or costs the same and comes before
/// by the order of its edge path.
pub open spec fn path_less(a: Path, b: Path) -> bool {
    a.cost < b.cost || (a.cost == b.cost && pair_less(
        path_order_key(a.directed_edge_path),
        path_order_key(b.directed_edge_path),
    ))
}

/// `a` and `b` have the same rank: the same cost and the same key of their
/// edge paths.
pub open spec fn path_same_rank(a: Path, b: Path) -> bool {
    a.cost == b.cost && path_order_key(a.directed_edge_path) == path_order_key(b.directed_edge_path)
}

/// Paths with their costs are totally ordered: of two paths exactly one
/// comes first or they have the same rank, no path comes before itself, and
/// the order is transitive; so sorting routes brings them into a
/// deterministic order of ranks.
pub proof fn lemma_paths_order_total(a: Path, b: Path, c: Path)
    ensures
        path_less(a, b) || path_same_rank(a, b) || path_less(b, a),
        !(path_less(a, b) && path_less(b, a)),
        !(path_less(a, b) && path_same_rank(a, b)),
        !path_less(a, a),
        path_less(a, b) && path_less(b, c) ==> path_less(a, c),
{
}

impl Path {
    /// Whether the path has no edges.
    pub fn is_empty(&self) -> (r: bool)
        ensures
            r == (path_edges(self.directed_edge_path).len() == 0),
    {
        self.directed_edge_path.is_empty()
    }

    /// The length of the path in number of edges.
    pub fn len(&self) -> (r: usize)
        ensures
            r == path_edges(self.directed_edge_path).len(),
    {
        self.directed_edge_path.len()
    }

    /// A path with its cost, its origin and destination taken from the
    /// edges. An empty edge sequence fails with `EmptyPath`.
    pub fn try_from(directed_edge_path: DirectedEdgePath, cost: u64) -> (r: Result<Path, Error>)
        ensures
            match (path_origin(directed_edge_path), path_destination(directed_edge_path)) {
                (Some(o), Some(d)) => r matches Ok(p) && p.origin_cell@ == o && p.destination_cell@ == d && p.cost == cost
                    && p.directed_edge_path == directed_edge_path,
                _ => r == Err::<Path, Error>(Error::EmptyPath),
            },
    {
        let origin_cell = match directed_edge_path.origin_cell() {
            Ok(c) => c,
            Err(e) => return Err(e),
        };
        let destination_cell = match directed_edge_path.destination_cell() {
            Ok(c) => c,
            Err(e) => return Err(e),
        };
        Ok(Path { origin_cell, destination_cell, cost, directed_edge_path })
    }

    /// Compares two paths by cost, then as [`DirectedEdgePath::cmp`] does.
    pub fn cmp(&self, other: &Path) -> (r: Ordering)
        ensures
            (r == Ordering::Less) == path_less(*self, *other),
            (r == Ordering::Equal) == path_same_rank(*self, *other),
            (r == Ordering::Greater) == path_less(*other, *self),
    {
        if self.cost < other.cost {
            Ordering::Less
        } else if self.cost > other.cost {
            Ordering::Greater
        } else {
            self.directed_edge_path.cmp(&other.directed_edge_path)
        }
    }

    /// The order of two paths, as given by [`Path::cmp`].
    pub fn partial_cmp(&self, other: &Path) -> (r: Option<Ordering>)
        ensures
            r matches Some(o) && (o == Ordering::Less) == path_less(*self, *other) && (o == Ordering::Equal)
                == path_same_rank(*self, *other) && (o == Ordering::Greater) == path_less(*other, *self),
    {
        Some(self.cmp(other))
    }
}

} // verus!
