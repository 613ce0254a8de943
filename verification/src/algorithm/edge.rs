//! Directed edges between neighboring cells.
use vstd::prelude::*;
use crate::h3::{CellIndex, DirectedEdgeIndex, cells_view, edges_view, h3_edge_between, h3_edge_destination, h3_edge_origin, h3_edge_reverse, opt_edge_view};

verus! {

/// The edges connecting consecutive cells of `rest`, starting from the cell
/// `last`: repeated cells are skipped, and the sequence ends at the first
/// pair of cells that are not neighbors.
pub open spec fn cells_to_edges_from(last: u64, rest: Seq<u64>) -> Seq<u64>
    decreases rest.len(),
{
    if rest.len() == 0 {
        Seq::empty()
    } else if rest[0] == last {
        cells_to_edges_from(last, rest.drop_first())
    } else {
        match h3_edge_between(last, rest[0]) {
            Some(e) => seq![e] + cells_to_edges_from(rest[0], rest.drop_first()),
            None => Seq::empty(),
        }
    }
}

/// The edges connecting consecutive cells of `cells` (see [`cells_to_edges_from`]).
pub open spec fn cells_to_edges(cells: Seq<u64>) -> Seq<u64> {
    if cells.len() == 0 {
        Seq::empty()
    } else {
        cells_to_edges_from(cells[0], cells.drop_first())
    }
}

/// Consecutive edges of `edges` meet: each ends where the next one starts.
pub open spec fn edges_are_continuous(edges: Seq<u64>) -> bool {
    forall|k: int| 0 <= k < edges.len() - 1 ==> h3_edge_destination(#[trigger] edges[k])
        == h3_edge_origin(edges[k + 1])
}

/// The cells of `rest` that differ from the cell before them (the first
/// compared with `last`): runs of a repeated cell collapsed to one.
pub open spec fn collapse_runs_from(last: u64, rest: Seq<u64>) -> Seq<u64>
    decreases rest.len(),
{
    if rest.len() == 0 {
        Seq::empty()
    } else if rest[0] == last {
        collapse_runs_from(last, rest.drop_first())
    } else {
        seq![rest[0]] + collapse_runs_from(rest[0], rest.drop_first())
    }
}

/// The cells of `cells` with runs of a repeated cell collapsed to one.
pub open spec fn collapse_runs(cells: Seq<u64>) -> Seq<u64> {
    if cells.len() == 0 {
        Seq::empty()
    } else {
        seq![cells[0]] + collapse_runs_from(cells[0], cells.drop_first())
    }
}

/// Consecutive cells of `cells` are neighbors.
pub open spec fn all_neighbors(cells: Seq<u64>) -> bool {
    forall|i: int| 0 <= i < cells.len() - 1 ==> #[trigger] h3_edge_between(cells[i], cells[i + 1]) is Some
}

/// The edges from `last` along `rest` when all collapsed cells are neighbors.
proof fn lemma_cells_to_edges_from_neighbors(last: u64, rest: Seq<u64>)
    requires
        all_neighbors(seq![last] + collapse_runs_from(last, rest)),
    ensures
        cells_to_edges_from(last, rest).len() == collapse_runs_from(last, rest).len(),
        forall|i: int| 0 <= i < cells_to_edges_from(last, rest).len() ==> Some(#[trigger] cells_to_edges_from(last, rest)[i])
            == h3_edge_between((seq![last] + collapse_runs_from(last, rest))[i], collapse_runs_from(last, rest)[i]),
    decreases rest.len(),
{
    if rest.len() > 0 {
        let tail = rest.drop_first();
        if rest[0] == last {
            lemma_cells_to_edges_from_neighbors(last, tail);
        } else {
            let c = collapse_runs_from(rest[0], tail);
            let full = seq![last] + collapse_runs_from(last, rest);
            assert(collapse_runs_from(last, rest) == seq![rest[0]] + c);
            assert forall|i: int| 0 <= i < (seq![rest[0]] + c).len() - 1 implies #[trigger] h3_edge_between(
                (seq![rest[0]] + c)[i],
                (seq![rest[0]] + c)[i + 1],
            ) is Some by {
                let k = i + 1;
                assert(full.len() == c.len() + 2);
                assert((seq![rest[0]] + c)[i] == full[k]);
                assert((seq![rest[0]] + c)[i + 1] == full[k + 1]);
                assert(h3_edge_between(full[k], full[k + 1]) is Some);
            }
            lemma_cells_to_edges_from_neighbors(rest[0], tail);
            assert(h3_edge_between(full[0], full[1]) is Some);
            let e = h3_edge_between(last, rest[0])->0;
            let r = cells_to_edges_from(last, rest);
            assert(r == seq![e] + cells_to_edges_from(rest[0], tail));
            assert forall|i: int| 0 <= i < r.len() implies Some(#[trigger] r[i]) == h3_edge_between(
                full[i],
                collapse_runs_from(last, rest)[i],
            ) by {
                if i > 0 {
                    assert(r[i] == cells_to_edges_from(rest[0], tail)[i - 1]);
                    assert(full[i] == (seq![rest[0]] + c)[i - 1]);
                    assert(collapse_runs_from(last, rest)[i] == c[i - 1]);
                }
            }
        }
    }
}

/// The edges of a sequence of cells whose collapsed runs are neighbors, one
/// after the other: one edge less than there are collapsed cells, the edge
/// `i` leading from collapsed cell `i` to collapsed cell `i + 1`.
pub proof fn lemma_cells_to_edges_count(cells: Seq<u64>)
    requires
        all_neighbors(collapse_runs(cells)),
    ensures
        cells.len() > 0 ==> cells_to_edges(cells).len() == collapse_runs(cells).len() - 1,
        cells.len() == 0 ==> cells_to_edges(cells).len() == 0,
        forall|i: int| 0 <= i < cells_to_edges(cells).len() ==> Some(#[trigger] cells_to_edges(cells)[i])
            == h3_edge_between(collapse_runs(cells)[i], collapse_runs(cells)[i + 1]),
{
    if cells.len() > 0 {
        let rc = collapse_runs(cells);
        let c = collapse_runs_from(cells[0], cells.drop_first());
        lemma_cells_to_edges_from_neighbors(cells[0], cells.drop_first());
        assert forall|i: int| 0 <= i < cells_to_edges(cells).len() implies Some(#[trigger] cells_to_edges(cells)[i])
            == h3_edge_between(rc[i], rc[i + 1]) by {
            assert(rc[i + 1] == c[i]);
        }
    }
}

/// The reverse of `directed_edge`.
///
/// The destination and the origin of an edge are neighbors, so the reverse
/// edge exists; `requires` states it over the `h3o` results.
pub fn reverse_directed_edge(directed_edge: DirectedEdgeIndex) -> (r: DirectedEdgeIndex)
    requires
        h3_edge_reverse(directed_edge@) is Some,
    ensures
        Some(r@) == h3_edge_reverse(directed_edge@),
        h3_edge_origin(r@) == h3_edge_destination(directed_edge@),
        h3_edge_destination(r@) == h3_edge_origin(directed_edge@),
{
    let (origin, destination) = directed_edge.cells();
    match destination.edge(origin) {
        Some(e) => e,
        None => directed_edge,  // excluded by `requires`
    }
}

/// The reverse of `directed_edge`, or `None` when `h3o` finds no edge from
/// its destination back to its origin.
pub fn try_reverse_directed_edge(directed_edge: DirectedEdgeIndex) -> (r: Option<DirectedEdgeIndex>)
    ensures
        opt_edge_view(r) == h3_edge_reverse(directed_edge@),
        r matches Some(e) ==> h3_edge_origin(e@) == h3_edge_destination(directed_edge@)
            && h3_edge_destination(e@) == h3_edge_origin(directed_edge@),
{
    let (origin, destination) = directed_edge.cells();
    match destination.edge(origin) {
        Some(_) => Some(reverse_directed_edge(directed_edge)),
        None => None,
    }
}

/// The directed edges connecting consecutive (neighboring) cells.
///
/// Repeated cells are skipped; the edges end at the first pair of cells that
/// are not neighbors.
pub fn continuous_cells_to_edges(cells: &Vec<CellIndex>) -> (r: Vec<DirectedEdgeIndex>)
    ensures
        edges_view(r@) == cells_to_edges(cells_view(cells@)),
        edges_are_continuous(edges_view(r@)),
        r@.len() > 0 ==> h3_edge_origin(r@[0]@) == cells@[0]@,
{
    let mut edges: Vec<DirectedEdgeIndex> = Vec::new();
    let n = cells.len();
    if n == 0 {
        return edges;
    }
    let ghost all = cells_view(cells@);
    let mut last = cells[0];
    let mut i: usize = 1;
    assert(all.drop_first() == all.skip(1));
    while i < n
        invariant
            n == cells@.len(),
            all == cells_view(cells@),
            1 <= i <= n,
            edges_view(edges@) + cells_to_edges_from(last@, all.skip(i as int)) == cells_to_edges(all),
            edges_are_continuous(edges_view(edges@)),
            edges@.len() > 0 ==> h3_edge_origin(edges@[0]@) == cells@[0]@,
            edges@.len() > 0 ==> h3_edge_destination(edges@[edges@.len() - 1]@) == last@,
            edges@.len() == 0 ==> last == cells@[0],
        decreases n - i,
    {
        let cell = cells[i];
        let ghost rest = all.skip(i as int);
        assert(rest[0] == cell@);
        assert(rest.drop_first() == all.skip(i + 1));
        if cell.to_u64() == last.to_u64() {
            i += 1;
        } else {
            match last.edge(cell) {
                Some(e) => {
                    let ghost before = edges@;
                    edges.push(e);
                    assert(edges_view(edges@) == edges_view(before).push(e@));
                    assert(edges_view(edges@) + cells_to_edges_from(cell@, all.skip(i + 1))
                        == edges_view(before) + (seq![e@] + cells_to_edges_from(cell@, all.skip(i + 1))));
                    last = cell;
                    i += 1;
                },
                None => {
                    assert(cells_to_edges_from(last@, rest) == Seq::<u64>::empty());
                    assert(edges_view(edges@) + Seq::<u64>::empty() == edges_view(edges@));
                    return edges;
                },
            }
        }
    }
    assert(all.skip(n as int) == Seq::<u64>::empty());
    assert(edges_view(edges@) + Seq::<u64>::empty() == edges_view(edges@));
    edges
}

} // verus!
