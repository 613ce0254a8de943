//! What the routing service answers with.
use vstd::prelude::*;
use crate::h3::{cells_view, edges_view, h3_is_cell, h3_is_edge};
use crate::algorithm::path::{Path, path_cells, path_edges, path_origin, path_destination, lemma_path_cells_ends};
use vstd::arithmetic::div_mod::{lemma_div_plus_one, lemma_basic_div};

verus! {

/// Responses that describe routes.
pub trait Route {}

/// Weights the server routes with.
pub trait ServerWeight: Copy {}

impl ServerWeight for u64 {}

/// Results that are stored under an id.
pub trait StrId {
    fn id(&self) -> &str;
}

/// Which indexes describe a route: the cells it passes or its edges.
#[derive(Clone, Debug, Copy, PartialEq, Eq, Structural)]
pub enum RouteH3IndexesKind {
    Cells,
    Edges,
}

/// The indexes describing a route: the cells the path passes through, or
/// its edges.
pub open spec fn route_h3indexes_view(path: Path, kind: RouteH3IndexesKind) -> Seq<u64> {
    match kind {
        RouteH3IndexesKind::Cells => path_cells(path.directed_edge_path),
        RouteH3IndexesKind::Edges => path_edges(path.directed_edge_path),
    }
}


/// A route described by its cells runs from the origin of its path to the
/// destination of its path, through the cells the path passes; described
/// by its edges, it lists the edges of its path, in their order.
pub proof fn lemma_route_h3indexes(path: Path)
    ensures
        path_origin(path.directed_edge_path) matches Some(o) ==> route_h3indexes_view(path, RouteH3IndexesKind::Cells).len() > 0
            && route_h3indexes_view(path, RouteH3IndexesKind::Cells)[0] == o,
        path_destination(path.directed_edge_path) matches Some(d) ==> route_h3indexes_view(path, RouteH3IndexesKind::Cells).len() > 0
            && route_h3indexes_view(path, RouteH3IndexesKind::Cells).last() == d,
        route_h3indexes_view(path, RouteH3IndexesKind::Edges).len() == path_edges(path.directed_edge_path).len(),
        forall|i: int| 0 <= i < path_edges(path.directed_edge_path).len()
            ==> #[trigger] route_h3indexes_view(path, RouteH3IndexesKind::Edges)[i] == path_edges(path.directed_edge_path)[i],
{
    lemma_path_cells_ends(path.directed_edge_path);
}

/// The indexes describing a route (see [`route_h3indexes_view`]).
pub fn route_h3indexes(path: &Path, kind: RouteH3IndexesKind) -> (r: Vec<u64>)
    ensures
        r@ == route_h3indexes_view(*path, kind),
        kind == RouteH3IndexesKind::Cells ==> forall|i: int| 0 <= i < r@.len() ==> h3_is_cell(#[trigger] r@[i]),
        kind == RouteH3IndexesKind::Edges ==> forall|i: int| 0 <= i < r@.len() ==> h3_is_edge(#[trigger] r@[i]),
{
    match kind {
        RouteH3IndexesKind::Cells => {
            let cells = path.directed_edge_path.cells();
            let mut out: Vec<u64> = Vec::new();
            let n = cells.len();
            for i in 0..n
                invariant
                    n == cells@.len(),
                    out@ == cells_view(cells@).take(i as int),
                    forall|j: int| 0 <= j < i ==> h3_is_cell(#[trigger] out@[j]),
            {
                let c = cells[i];
                proof {
                    use_type_invariant(&c);
                }
                out.push(c.to_u64());
                assert(cells_view(cells@).take(i + 1) == cells_view(cells@).take(i as int).push(cells@[i as int]@));
            }
            assert(cells_view(cells@).take(n as int) == cells_view(cells@));
            out
        },
        RouteH3IndexesKind::Edges => {
            let edges = path.directed_edge_path.edges();
            let mut out: Vec<u64> = Vec::new();
            let n = edges.len();
            for i in 0..n
                invariant
                    n == edges@.len(),
                    out@ == edges_view(edges@).take(i as int),
                    forall|j: int| 0 <= j < i ==> h3_is_edge(#[trigger] out@[j]),
            {
                let e = edges[i];
                proof {
                    use_type_invariant(&e);
                }
                out.push(e.to_u64());
                assert(edges_view(edges@).take(i + 1) == edges_view(edges@).take(i as int).push(edges@[i as int]@));
            }
            assert(edges_view(edges@).take(n as int) == edges_view(edges@));
            out
        },
    }
}

/// Options of a shortest-path request.
#[derive(Clone, Debug, Copy, PartialEq, Eq, Structural)]
pub struct ShortestPathOptions {
    /// How many cells an origin or destination may lie off the graph.
    pub num_gap_cells_to_graph: u32,
    /// How many destinations to reach before the search stops; zero when
    /// it was not set.
    pub num_destinations_to_reach: u32,
}

impl ShortestPathOptions {
    /// The number of cells an origin or destination may lie off the graph.
    pub fn max_distance_to_graph(&self) -> (r: u32)
        ensures
            r == self.num_gap_cells_to_graph,
    {
        self.num_gap_cells_to_graph
    }

    /// The number of destinations to reach; `None` when it was not set
    /// (zero).
    pub fn num_destinations_to_reach(&self) -> (r: Option<usize>)
        ensures
            self.num_destinations_to_reach == 0 ==> r is None,
            self.num_destinations_to_reach != 0 ==> r == Some(self.num_destinations_to_reach as usize),
    {
        if self.num_destinations_to_reach == 0 {
            None
        } else {
            Some(self.num_destinations_to_reach as usize)
        }
    }
}

/// The most rows a streamed part of a dataframe holds.
pub const MAX_ROWS_PER_PART: usize = 3000;

/// The parts a dataframe of `num_rows` rows is streamed in, from row
/// `offset` on: each starts where the previous one ends and holds
/// `max_rows` rows, the last one the rest.
pub open spec fn part_ranges(offset: nat, num_rows: nat, max_rows: nat) -> Seq<(nat, nat)>
    decreases (if offset < num_rows { num_rows - offset } else { 0 }),
    when max_rows > 0
{
    if offset >= num_rows {
        Seq::empty()
    } else {
        let len: nat = if num_rows - offset < max_rows { (num_rows - offset) as nat } else { max_rows };
        seq![(offset, len)] + part_ranges(offset + max_rows, num_rows, max_rows)
    }
}

/// The total number of rows of some parts.
pub open spec fn rows_of(parts: Seq<(nat, nat)>) -> nat
    decreases parts.len(),
{
    if parts.len() == 0 {
        0
    } else {
        parts[0].1 + rows_of(parts.drop_first())
    }
}

/// The view of row ranges.
pub open spec fn ranges_view(parts: Seq<(usize, usize)>) -> Seq<(nat, nat)> {
    parts.map_values(|p: (usize, usize)| (p.0 as nat, p.1 as nat))
}

/// The parts of a dataframe hold each of its rows once: they start at the
/// first row, each starts where the previous one ends, none is empty or
/// larger than `max_rows`, and together they hold all rows.
pub proof fn lemma_parts_cover_rows(offset: nat, num_rows: nat, max_rows: nat)
    requires
        max_rows > 0,
        offset <= num_rows,
    ensures
        rows_of(part_ranges(offset, num_rows, max_rows)) == num_rows - offset,
        forall|i: int| 0 <= i < part_ranges(offset, num_rows, max_rows).len() ==> {
            let p = #[trigger] part_ranges(offset, num_rows, max_rows)[i];
            &&& 0 < p.1 <= max_rows
            &&& (i == 0 ==> p.0 == offset)
            &&& (i + 1 < part_ranges(offset, num_rows, max_rows).len() ==> part_ranges(offset, num_rows, max_rows)[i + 1].0 == p.0 + p.1)
        },
    decreases num_rows - offset,
{
    let parts = part_ranges(offset, num_rows, max_rows);
    if offset < num_rows {
        let next = offset + max_rows;
        if next <= num_rows {
            lemma_parts_cover_rows(next, num_rows, max_rows);
        } else {
            assert(part_ranges(next, num_rows, max_rows) == Seq::<(nat, nat)>::empty());
        }
        let rest = part_ranges(next, num_rows, max_rows);
        let len: nat = if num_rows - offset < max_rows { (num_rows - offset) as nat } else { max_rows };
        assert(parts == seq![(offset, len)] + rest);
        assert(parts[0] == (offset, len));
        assert(parts.drop_first() =~= rest);
        assert(rows_of(parts) == len + rows_of(rest));
        assert forall|i: int| 0 <= i < parts.len() implies {
            let p = #[trigger] parts[i];
            &&& 0 < p.1 <= max_rows
            &&& (i == 0 ==> p.0 == offset)
            &&& (i + 1 < parts.len() ==> parts[i + 1].0 == p.0 + p.1)
        } by {
            if i > 0 {
                assert(parts[i] == rest[i - 1]);
            }
            if i + 1 < parts.len() {
                assert(parts[i + 1] == rest[i]);
            }
        }
    }
}

/// A dataframe of `num_rows` rows is streamed from row `offset` on in
/// ⌈(num_rows - offset) / max_rows⌉ parts; the `i`-th starts at row
/// `offset + i * max_rows` and holds `max_rows` rows, or the rows that are
/// left where fewer remain.
pub proof fn lemma_part_count(offset: nat, num_rows: nat, max_rows: nat)
    requires
        max_rows > 0,
        offset <= num_rows,
    ensures
        part_ranges(offset, num_rows, max_rows).len() == (num_rows - offset + max_rows - 1) / (max_rows as int),
        forall|i: int| 0 <= i < part_ranges(offset, num_rows, max_rows).len() ==> {
            let start = offset + i * max_rows;
            &&& (#[trigger] part_ranges(offset, num_rows, max_rows)[i]).0 == start
            &&& part_ranges(offset, num_rows, max_rows)[i].1 == (if num_rows - start < max_rows { num_rows - start } else { max_rows as int })
        },
    decreases num_rows - offset,
{
    let m = max_rows as int;
    let parts = part_ranges(offset, num_rows, max_rows);
    if offset == num_rows {
        lemma_basic_div(m - 1, m);
    } else {
        let x = num_rows - offset;
        let next = offset + max_rows;
        let rest = part_ranges(next, num_rows, max_rows);
        let len: nat = if num_rows - offset < max_rows { (num_rows - offset) as nat } else { max_rows };
        assert(parts == seq![(offset, len)] + rest);
        lemma_div_plus_one(x - 1, m);
        if next <= num_rows {
            lemma_part_count(next, num_rows, max_rows);
            assert((num_rows - next + max_rows - 1) == x - 1);
        } else {
            assert(rest == Seq::<(nat, nat)>::empty());
            lemma_basic_div(x - 1, m);
        }
        assert forall|i: int| 0 <= i < parts.len() implies {
            let start = offset + i * max_rows;
            &&& (#[trigger] parts[i]).0 == start
            &&& parts[i].1 == (if num_rows - start < max_rows { num_rows - start } else { max_rows as int })
        } by {
            if i > 0 {
                assert(parts[i] == rest[i - 1]);
                assert((i - 1) * m + m == i * m) by (nonlinear_arith);
            }
        }
    }
}

/// The row ranges (offset and number of rows) of the parts a dataframe of
/// `num_rows` rows is streamed in (see [`part_ranges`]).
pub fn dataframe_parts(num_rows: usize, max_rows: usize) -> (r: Vec<(usize, usize)>)
    requires
        max_rows > 0,
    ensures
        ranges_view(r@) == part_ranges(0, num_rows as nat, max_rows as nat),
{
    let mut out: Vec<(usize, usize)> = Vec::new();
    let mut offset: usize = 0;
    while offset < num_rows
        invariant_except_break
            offset <= num_rows,
            max_rows > 0,
            ranges_view(out@) + part_ranges(offset as nat, num_rows as nat, max_rows as nat) == part_ranges(
                0,
                num_rows as nat,
                max_rows as nat,
            ),
        ensures
            ranges_view(out@) == part_ranges(0, num_rows as nat, max_rows as nat),
        decreases num_rows - offset,
    {
        let rest = num_rows - offset;
        let len = if rest < max_rows { rest } else { max_rows };
        let ghost before = ranges_view(out@);
        let ghost tail = part_ranges((offset + max_rows) as nat, num_rows as nat, max_rows as nat);
        assert(part_ranges(offset as nat, num_rows as nat, max_rows as nat) == seq![(offset as nat, len as nat)] + tail);
        out.push((offset, len));
        assert(ranges_view(out@) == before.push((offset as nat, len as nat)));
        assert(ranges_view(out@) + tail =~= before + (seq![(offset as nat, len as nat)] + tail));
        if rest <= max_rows {
            assert(tail == Seq::<(nat, nat)>::empty());
            assert(ranges_view(out@) =~= ranges_view(out@) + tail);
            break;
        }
        offset = offset + max_rows;
    }
    proof {
        if num_rows == 0 {
            assert(ranges_view(out@) =~= Seq::<(nat, nat)>::empty());
        }
    }
    out
}

/// The parts a dataframe is streamed in, at most [`MAX_ROWS_PER_PART`]
/// rows each.
pub fn stream_dataframe_parts(num_rows: usize) -> (r: Vec<(usize, usize)>)
    ensures
        ranges_view(r@) == part_ranges(0, num_rows as nat, MAX_ROWS_PER_PART as nat),
{
    dataframe_parts(num_rows, MAX_ROWS_PER_PART)
}

} // verus!
