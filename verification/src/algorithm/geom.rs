//! Splitting edge sequences into continuous lines of cells.
//!
//! The geometry of a line (the cell centroids) is computed outside the
//! library; what is decided here is which cells form which line.
use vstd::prelude::*;
use crate::h3::{CellIndex, DirectedEdgeIndex, cells_view, h3_edge_destination, h3_edge_origin};

verus! {

/// The lines built from `(origin, destination)` cell tuples so far, and the
/// line still being built.
///
/// A tuple continues the current line when its origin is the destination of
/// the previous tuple; otherwise the current line is finished and a new one
/// starts at the tuple's origin.
pub open spec fn cell_lines_state(tuples: Seq<(u64, u64)>) -> (Seq<Seq<u64>>, Seq<u64>)
    decreases tuples.len(),
{
    if tuples.len() == 0 {
        (Seq::empty(), Seq::empty())
    } else {
        let (lines, current) = cell_lines_state(tuples.drop_last());
        let (origin, destination) = tuples.last();
        if current.len() == 0 {
            (lines, seq![origin, destination])
        } else if tuples[tuples.len() - 2].1 != origin {
            (lines.push(current), seq![origin, destination])
        } else {
            (lines, current.push(destination))
        }
    }
}

/// The lines of cells described by `(origin, destination)` cell tuples.
pub open spec fn cell_lines(tuples: Seq<(u64, u64)>) -> Seq<Seq<u64>> {
    let (lines, current) = cell_lines_state(tuples);
    if current.len() > 0 {
        lines.push(current)
    } else {
        lines
    }
}

/// Consecutive tuples meet: each starts where the previous one ends.
pub open spec fn tuples_continuous(tuples: Seq<(u64, u64)>) -> bool {
    forall|k: int| 0 <= k < tuples.len() - 1 ==> (#[trigger] tuples[k]).1 == tuples[k + 1].0
}

/// The cells of continuous tuples: the first origin, then each destination.
pub open spec fn continuous_line(tuples: Seq<(u64, u64)>) -> Seq<u64> {
    Seq::new(tuples.len() + 1, |i: int| if i == 0 { tuples[0].0 } else { tuples[i - 1].1 })
}

/// The state of the line building: a line is being built, no line is
/// finished exactly when the tuples are continuous, and then the line being
/// built holds the cells of the tuples.
proof fn lemma_cell_lines_state(tuples: Seq<(u64, u64)>)
    requires
        tuples.len() > 0,
    ensures
        cell_lines_state(tuples).1.len() >= 2,
        cell_lines_state(tuples).0.len() == 0 <==> tuples_continuous(tuples),
        tuples_continuous(tuples) ==> cell_lines_state(tuples).1 == continuous_line(tuples),
    decreases tuples.len(),
{
    let n = tuples.len();
    if n == 1 {
        assert(cell_lines_state(tuples.drop_last()) == (Seq::<Seq<u64>>::empty(), Seq::<u64>::empty()));
        assert(continuous_line(tuples) =~= seq![tuples[0].0, tuples[0].1]);
    } else {
        let init = tuples.drop_last();
        lemma_cell_lines_state(init);
        assert(init[n - 2] == tuples[n - 2]);
        assert(tuples_continuous(tuples) <==> tuples_continuous(init) && tuples[n - 2].1 == tuples[n - 1].0) by {
            if tuples_continuous(tuples) {
                assert forall|k: int| 0 <= k < init.len() - 1 implies (#[trigger] init[k]).1 == init[k + 1].0 by {
                    assert(tuples[k] == init[k] && tuples[k + 1] == init[k + 1]);
                }
            }
            if tuples_continuous(init) && tuples[n - 2].1 == tuples[n - 1].0 {
                assert forall|k: int| 0 <= k < tuples.len() - 1 implies (#[trigger] tuples[k]).1 == tuples[k + 1].0 by {
                    if k < n - 2 {
                        assert(tuples[k] == init[k] && tuples[k + 1] == init[k + 1]);
                    }
                }
            }
        }
        if tuples_continuous(tuples) {
            assert(continuous_line(tuples) =~= continuous_line(init).push(tuples[n - 1].1));
        }
    }
}

/// Edge tuples form one line exactly when they are continuous, and that
/// line runs through the first origin and every destination.
pub proof fn lemma_one_line_iff_continuous(tuples: Seq<(u64, u64)>)
    requires
        tuples.len() > 0,
    ensures
        cell_lines(tuples).len() >= 1,
        cell_lines(tuples).len() == 1 <==> tuples_continuous(tuples),
        tuples_continuous(tuples) ==> cell_lines(tuples)[0] == continuous_line(tuples),
{
    lemma_cell_lines_state(tuples);
}

/// The `(origin, destination)` cells of each edge.
pub open spec fn edge_cell_tuples(edges: Seq<u64>) -> Seq<(u64, u64)> {
    edges.map_values(|e: u64| (h3_edge_origin(e), h3_edge_destination(e)))
}

/// The `u64` values of lines of cells.
pub open spec fn lines_view(lines: Seq<Vec<CellIndex>>) -> Seq<Seq<u64>> {
    lines.map_values(|l: Vec<CellIndex>| cells_view(l@))
}

/// Splits subsequent `(origin, destination)` cell tuples into lines of
/// cells: consecutive tuples where each starts at the previous destination
/// form one line.
pub fn celltuples_to_cell_lines(tuples: &Vec<(CellIndex, CellIndex)>) -> (r: Vec<Vec<CellIndex>>)
    ensures
        lines_view(r@) == cell_lines(tuples@.map_values(|t: (CellIndex, CellIndex)| (t.0@, t.1@))),
{
    let ghost tv = tuples@.map_values(|t: (CellIndex, CellIndex)| (t.0@, t.1@));
    let mut lines: Vec<Vec<CellIndex>> = Vec::new();
    let mut current: Vec<CellIndex> = Vec::new();
    let mut last_destination: u64 = 0;
    let n = tuples.len();
    for i in 0..n
        invariant
            n == tuples@.len(),
            tv == tuples@.map_values(|t: (CellIndex, CellIndex)| (t.0@, t.1@)),
            (lines_view(lines@), cells_view(current@)) == cell_lines_state(tv.take(i as int)),
            i > 0 ==> last_destination == tv[i - 1].1,
    {
        let (origin, destination) = tuples[i];
        let ghost t = tv.take(i + 1);
        assert(t.drop_last() == tv.take(i as int));
        assert(t.last() == (origin@, destination@));
        let ghost lines_before = lines@;
        let ghost current_before = current@;
        if current.len() == 0 {
            current.push(origin);
            current.push(destination);
            assert(cells_view(current@) == seq![origin@, destination@]);
        } else if last_destination != origin.to_u64() {
            assert(i > 0) by {
                if i == 0 {
                    assert(cell_lines_state(tv.take(0)).1 == Seq::<u64>::empty());
                }
            }
            let mut finished: Vec<CellIndex> = Vec::new();
            std::mem::swap(&mut finished, &mut current);
            lines.push(finished);
            current.push(origin);
            current.push(destination);
            assert(lines_view(lines@) == lines_view(lines_before).push(cells_view(current_before)));
            assert(cells_view(current@) == seq![origin@, destination@]);
        } else {
            assert(i > 0) by {
                if i == 0 {
                    assert(cell_lines_state(tv.take(0)).1 == Seq::<u64>::empty());
                }
            }
            current.push(destination);
            assert(cells_view(current@) == cells_view(current_before).push(destination@));
        }
        last_destination = destination.to_u64();
    }
    assert(tv.take(n as int) == tv);
    let ghost lines_before = lines@;
    if current.len() > 0 {
        lines.push(current);
        assert(lines_view(lines@) == lines_view(lines_before).push(cells_view(current@)));
    }
    lines
}

/// The lines of cells traversed by subsequent edges: consecutive edges
/// meeting at a cell share a line.
pub fn edges_to_cell_lines(edges: &Vec<DirectedEdgeIndex>) -> (r: Vec<Vec<CellIndex>>)
    ensures
        lines_view(r@) == cell_lines(edge_cell_tuples(edges@.map_values(|e: DirectedEdgeIndex| e@))),
{
    let mut tuples: Vec<(CellIndex, CellIndex)> = Vec::new();
    let n = edges.len();
    for i in 0..n
        invariant
            n == edges@.len(),
            tuples@.map_values(|t: (CellIndex, CellIndex)| (t.0@, t.1@)) == edge_cell_tuples(
                edges@.map_values(|e: DirectedEdgeIndex| e@),
            ).take(i as int),
    {
        let cells = edges[i].cells();
        let ghost before = tuples@;
        tuples.push(cells);
        assert(tuples@.map_values(|t: (CellIndex, CellIndex)| (t.0@, t.1@)) == before.map_values(
            |t: (CellIndex, CellIndex)| (t.0@, t.1@),
        ).push((cells.0@, cells.1@)));
    }
    assert(edge_cell_tuples(edges@.map_values(|e: DirectedEdgeIndex| e@)).take(n as int)
        == edge_cell_tuples(edges@.map_values(|e: DirectedEdgeIndex| e@)));
    celltuples_to_cell_lines(&tuples)
}

} // verus!
