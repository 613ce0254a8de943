//! Choosing the origin cells of a differential shortest path calculation:
//! the cells around a disturbance from which routes are computed with and
//! without the disturbance.
use vstd::prelude::*;
use vstd::string::StringExecFns;
use crate::h3::{CellIndex, MAX_RESOLUTION, cells_view, index_values, sorted_dedup, h3_is_cell, h3_parent, h3_grid_disk_distances, strictly_increasing};
use crate::algorithm::resolution::transform_cells;
use crate::routing::storage::change_cell_resolution_dedup;
use crate::collections::{U64Map, lemma_filter_from};
use crate::treemap::H3Treemap;

verus! {

/// The cells of `within_buffer` that hold reference data and are not part
/// of the disturbance, in their order.
pub open spec fn origin_cells_view(within_buffer: Seq<u64>, ref_cells: Set<u64>, disturbance: Set<u64>) -> Seq<u64> {
    within_buffer.filter(|c: u64| ref_cells.contains(c) && !disturbance.contains(c))
}

/// The origin cells to route from: the cells within the buffer around the
/// disturbance that hold reference data, the disturbance itself left out.
pub fn select_origin_cells(
    within_buffer: &Vec<CellIndex>,
    ref_cells: &H3Treemap<CellIndex>,
    disturbance: &H3Treemap<CellIndex>,
) -> (r: Vec<CellIndex>)
    ensures
        cells_view(r@) == origin_cells_view(cells_view(within_buffer@), ref_cells@, disturbance@),
{
    let ghost wb = cells_view(within_buffer@);
    let ghost pred = |c: u64| ref_cells@.contains(c) && !disturbance@.contains(c);
    let mut out: Vec<CellIndex> = Vec::new();
    let n = within_buffer.len();
    for i in 0..n
        invariant
            n == within_buffer@.len(),
            wb == cells_view(within_buffer@),
            pred == (|c: u64| ref_cells@.contains(c) && !disturbance@.contains(c)),
            cells_view(out@) == wb.take(i as int).filter(pred),
    {
        let cell = within_buffer[i];
        assert(wb.take(i + 1) == wb.take(i as int).push(cell@));
        proof {
            wb.take(i as int).lemma_filter_push(cell@, pred);
        }
        if ref_cells.contains(&cell) && !disturbance.contains(&cell) {
            let ghost before = out@;
            out.push(cell);
            assert(cells_view(out@) == cells_view(before).push(cell@));
        }
    }
    assert(wb.take(n as int) == wb);
    out
}

/// The origin cells whose parent at `h3_resolution` is affected by the
/// disturbance or part of it, in their order.
pub open spec fn reduced_origin_cells_view(origin_cells: Seq<u64>, h3_resolution: u8, affected: Set<u64>, disturbance: Set<u64>) -> Seq<u64> {
    origin_cells.filter(
        |c: u64| h3_parent(c, h3_resolution) matches Some(p) && (affected.contains(p) || disturbance.contains(p)),
    )
}

/// The origin cells worth routing from at full resolution after routing at
/// the coarser resolution `h3_resolution`: those whose parent there is
/// affected by the disturbance, or within the disturbance (which keeps the
/// cells bordering it).
pub fn reduce_origin_cells(
    origin_cells: &Vec<CellIndex>,
    h3_resolution: u8,
    affected: &H3Treemap<CellIndex>,
    disturbance: &H3Treemap<CellIndex>,
) -> (r: Vec<CellIndex>)
    requires
        h3_resolution <= MAX_RESOLUTION,
    ensures
        cells_view(r@) == reduced_origin_cells_view(cells_view(origin_cells@), h3_resolution, affected@, disturbance@),
{
    let ghost oc = cells_view(origin_cells@);
    let ghost pred = |c: u64| h3_parent(c, h3_resolution) matches Some(p) && (affected@.contains(p) || disturbance@.contains(p));
    let mut out: Vec<CellIndex> = Vec::new();
    let n = origin_cells.len();
    for i in 0..n
        invariant
            n == origin_cells@.len(),
            h3_resolution <= MAX_RESOLUTION,
            oc == cells_view(origin_cells@),
            pred == (|c: u64| h3_parent(c, h3_resolution) matches Some(p) && (affected@.contains(p) || disturbance@.contains(p))),
            cells_view(out@) == oc.take(i as int).filter(pred),
    {
        let cell = origin_cells[i];
        assert(oc.take(i + 1) == oc.take(i as int).push(cell@));
        proof {
            oc.take(i as int).lemma_filter_push(cell@, pred);
        }
        match cell.parent(h3_resolution) {
            Some(parent) => {
                if affected.contains(&parent) || disturbance.contains(&parent) {
                    let ghost before = out@;
                    out.push(cell);
                    assert(cells_view(out@) == cells_view(before).push(cell@));
                }
            },
            None => {},
        }
    }
    assert(oc.take(n as int) == oc);
    out
}

/// The origin cells kept after routing at a coarser resolution are origin
/// cells; every origin cell whose parent at that resolution is affected by
/// the disturbance is kept, and so is every origin cell whose parent lies
/// within the coarse disturbance, so that the cells directly bordering the
/// disturbance are never dropped. No other cell is kept.
pub proof fn lemma_reduced_origin_cells(origin_cells: Seq<u64>, h3_resolution: u8, affected: Set<u64>, disturbance: Set<u64>)
    ensures
        forall|c: u64| #[trigger] reduced_origin_cells_view(origin_cells, h3_resolution, affected, disturbance).contains(c)
            ==> origin_cells.contains(c) && h3_parent(c, h3_resolution) is Some && (affected.contains(h3_parent(c, h3_resolution)->0)
                || disturbance.contains(h3_parent(c, h3_resolution)->0)),
        forall|i: int| 0 <= i < origin_cells.len() && h3_parent(#[trigger] origin_cells[i], h3_resolution) is Some
            && affected.contains(h3_parent(origin_cells[i], h3_resolution)->0) ==> reduced_origin_cells_view(origin_cells, h3_resolution, affected, disturbance).contains(origin_cells[i]),
        forall|i: int| 0 <= i < origin_cells.len() && h3_parent(#[trigger] origin_cells[i], h3_resolution) is Some
            && disturbance.contains(h3_parent(origin_cells[i], h3_resolution)->0) ==> reduced_origin_cells_view(origin_cells, h3_resolution, affected, disturbance).contains(origin_cells[i]),
{
    let keep = |c: u64| h3_parent(c, h3_resolution) matches Some(q) && (affected.contains(q) || disturbance.contains(q));
    let reduced = reduced_origin_cells_view(origin_cells, h3_resolution, affected, disturbance);
    assert(reduced == origin_cells.filter(keep));
    assert forall|c: u64| #[trigger] reduced.contains(c) implies origin_cells.contains(c) && h3_parent(c, h3_resolution) is Some
        && (affected.contains(h3_parent(c, h3_resolution)->0) || disturbance.contains(h3_parent(c, h3_resolution)->0)) by {
        let k = choose|k: int| 0 <= k < reduced.len() && reduced[k] == c;
        origin_cells.lemma_filter_pred(keep, k);
        origin_cells.lemma_filter_contains_rev(keep, c);
    }
    assert forall|i: int| 0 <= i < origin_cells.len() && h3_parent(#[trigger] origin_cells[i], h3_resolution) is Some
        && (affected.contains(h3_parent(origin_cells[i], h3_resolution)->0) || disturbance.contains(h3_parent(origin_cells[i], h3_resolution)->0))
        implies reduced.contains(origin_cells[i]) by {
        origin_cells.lemma_filter_contains(keep, i);
    }
}

/// Keeps the cells of `cells` that occur in `contents` (the cells holding
/// data in a dataframe; none for an empty one), in their order.
pub fn filter_cells_by_contents(cells: &mut Vec<CellIndex>, contents: &H3Treemap<CellIndex>)
    ensures
        cells_view(final(cells)@) == cells_view(old(cells)@).filter(|c: u64| contents@.contains(c)),
{
    let ghost cv = cells_view(cells@);
    let ghost pred = |c: u64| contents@.contains(c);
    let mut kept: Vec<CellIndex> = Vec::new();
    let n = cells.len();
    for i in 0..n
        invariant
            n == cells@.len(),
            cv == cells_view(cells@),
            pred == (|c: u64| contents@.contains(c)),
            cells_view(kept@) == cv.take(i as int).filter(pred),
    {
        let cell = cells[i];
        assert(cv.take(i + 1) == cv.take(i as int).push(cell@));
        proof {
            cv.take(i as int).lemma_filter_push(cell@, pred);
        }
        if contents.contains(&cell) {
            let ghost before = kept@;
            kept.push(cell);
            assert(cells_view(kept@) == cells_view(before).push(cell@));
        }
    }
    assert(cv.take(n as int) == cv);
    *cells = kept;
}

/// The resolutions to look for a graph to route on first, at most four
/// below the graph's resolution: from the next lower one down.
pub open spec fn prerouting_resolutions_view(h3_resolution: u8) -> Seq<u8> {
    let start: int = if h3_resolution >= 4 { h3_resolution - 4 } else { 0 };
    Seq::new((h3_resolution - start) as nat, |i: int| (h3_resolution - 1 - i) as u8)
}

/// The resolutions to look for a coarser graph at (see
/// [`prerouting_resolutions_view`]), in the order to try them.
pub fn prerouting_resolutions(h3_resolution: u8) -> (r: Vec<u8>)
    ensures
        r@ == prerouting_resolutions_view(h3_resolution),
{
    let start: u8 = h3_resolution.saturating_sub(4);
    let mut out: Vec<u8> = Vec::new();
    let mut r = h3_resolution;
    while r > start
        invariant
            start <= r <= h3_resolution,
            start == (if h3_resolution >= 4 { h3_resolution - 4 } else { 0 }),
            out@.len() == h3_resolution - r,
            forall|i: int| 0 <= i < out@.len() ==> #[trigger] out@[i] == (h3_resolution - 1 - i) as u8,
        decreases r,
    {
        r = r - 1;
        out.push(r);
    }
    assert(out@ =~= prerouting_resolutions_view(h3_resolution));
    out
}

/// The values of `raw` that are valid cell indexes, in their order.
pub open spec fn valid_cells(raw: Seq<u64>) -> Seq<u64> {
    raw.filter(|v: u64| h3_is_cell(v))
}

/// The cells of a requested cell selection: the valid cell indexes of
/// `raw` (invalid ones are ignored) brought to `h3_resolution`, each once
/// and in increasing order.
pub fn selection_cells(raw: &Vec<u64>, h3_resolution: u8) -> (r: Vec<CellIndex>)
    requires
        h3_resolution <= MAX_RESOLUTION,
    ensures
        strictly_increasing(cells_view(r@)),
        forall|x: u64| cells_view(r@).contains(x) <==> transform_cells(valid_cells(raw@), h3_resolution).contains(x),
{
    let ghost pred = |v: u64| h3_is_cell(v);
    let mut cells: Vec<CellIndex> = Vec::new();
    let n = raw.len();
    for i in 0..n
        invariant
            n == raw@.len(),
            pred == (|v: u64| h3_is_cell(v)),
            cells_view(cells@) == raw@.take(i as int).filter(pred),
    {
        let v = raw[i];
        assert(raw@.take(i + 1) == raw@.take(i as int).push(v));
        proof {
            raw@.take(i as int).lemma_filter_push(v, pred);
        }
        match CellIndex::try_from_u64(v) {
            Some(cell) => {
                let ghost before = cells@;
                cells.push(cell);
                assert(cells_view(cells@) == cells_view(before).push(v));
            },
            None => {},
        }
    }
    assert(raw@.take(n as int) == raw@);
    change_cell_resolution_dedup(&cells, h3_resolution)
}

/// The cells routed from around a disturbance, with or without routing at a
/// coarser resolution first, are cells within the buffer that hold
/// reference data and are not part of the disturbance.
pub proof fn lemma_origin_cells_outside_disturbance(
    within_buffer: Seq<u64>,
    ref_cells: Set<u64>,
    disturbance: Set<u64>,
    h3_resolution: u8,
    affected: Set<u64>,
    disturbance_coarse: Set<u64>,
)
    ensures
        forall|c: u64| #[trigger] origin_cells_view(within_buffer, ref_cells, disturbance).contains(c)
            ==> within_buffer.contains(c) && ref_cells.contains(c) && !disturbance.contains(c),
        forall|c: u64| #[trigger] reduced_origin_cells_view(
            origin_cells_view(within_buffer, ref_cells, disturbance),
            h3_resolution,
            affected,
            disturbance_coarse,
        ).contains(c) ==> within_buffer.contains(c) && ref_cells.contains(c) && !disturbance.contains(c),
        forall|i: int| 0 <= i < within_buffer.len() && ref_cells.contains(#[trigger] within_buffer[i]) && !disturbance.contains(within_buffer[i])
            ==> origin_cells_view(within_buffer, ref_cells, disturbance).contains(within_buffer[i]),
{
    let pred = |c: u64| ref_cells.contains(c) && !disturbance.contains(c);
    let origins = origin_cells_view(within_buffer, ref_cells, disturbance);
    assert forall|i: int| 0 <= i < within_buffer.len() && ref_cells.contains(#[trigger] within_buffer[i]) && !disturbance.contains(within_buffer[i])
        implies origins.contains(within_buffer[i]) by {
        within_buffer.lemma_filter_contains(pred, i);
    }
    assert forall|c: u64| #[trigger] origins.contains(c) implies within_buffer.contains(c) && ref_cells.contains(c)
        && !disturbance.contains(c) by {
        let k = choose|k: int| 0 <= k < origins.len() && origins[k] == c;
        within_buffer.lemma_filter_pred(pred, k);
        lemma_filter_from(within_buffer, pred, k);
    }
    let pred2 = |c: u64| h3_parent(c, h3_resolution) matches Some(p) && (affected.contains(p) || disturbance_coarse.contains(p));
    let reduced = reduced_origin_cells_view(origins, h3_resolution, affected, disturbance_coarse);
    assert forall|c: u64| #[trigger] reduced.contains(c) implies within_buffer.contains(c) && ref_cells.contains(c)
        && !disturbance.contains(c) by {
        let k = choose|k: int| 0 <= k < reduced.len() && reduced[k] == c;
        lemma_filter_from(origins, pred2, k);
        assert(origins.contains(c));
    }
}

/// What fetching a graph at a candidate resolution gave.
#[derive(Clone, Copy, PartialEq, Eq, Structural, Debug)]
pub enum FetchOutcome {
    /// The graph was fetched.
    Found,
    /// There is no graph at that resolution.
    NotFound,
    /// Fetching failed for another reason.
    Failed,
}

/// What to do after the fetches so far of the graph to route on first.
#[derive(Clone, Copy, PartialEq, Eq, Structural, Debug)]
pub enum PreroutingDecision {
    /// Route on the graph found at this resolution.
    UseResolution(u8),
    /// Give up with the error of the failed fetch.
    FetchFailed,
    /// Fetch the graph at the next candidate resolution.
    TryNext,
    /// No candidate resolution has a graph: the request is refused.
    NoSuitableGraph,
}

/// The decision after the fetches `outcomes` of the graphs at the candidate
/// resolutions, in their order: the first fetch that did not report a
/// missing graph decides; while all graphs were missing, the next candidate
/// is tried, and when none is left there is no suitable graph.
pub open spec fn prerouting_decision_view(h3_resolution: u8, outcomes: Seq<FetchOutcome>) -> PreroutingDecision
    decreases outcomes.len(),
{
    if outcomes.len() == 0 {
        if prerouting_resolutions_view(h3_resolution).len() > 0 {
            PreroutingDecision::TryNext
        } else {
            PreroutingDecision::NoSuitableGraph
        }
    } else {
        let before = prerouting_decision_view(h3_resolution, outcomes.drop_last());
        let i = outcomes.len() - 1;
        if before is TryNext {
            match outcomes.last() {
                FetchOutcome::Found => PreroutingDecision::UseResolution(prerouting_resolutions_view(h3_resolution)[i]),
                FetchOutcome::Failed => PreroutingDecision::FetchFailed,
                FetchOutcome::NotFound => if outcomes.len() < prerouting_resolutions_view(h3_resolution).len() {
                    PreroutingDecision::TryNext
                } else {
                    PreroutingDecision::NoSuitableGraph
                },
            }
        } else {
            before
        }
    }
}

/// The fetch at position `i` is the first of `outcomes` that did not report
/// a missing graph.
pub open spec fn first_decisive_fetch(outcomes: Seq<FetchOutcome>, i: int) -> bool {
    &&& 0 <= i < outcomes.len()
    &&& outcomes[i] != FetchOutcome::NotFound
    &&& forall|j: int| 0 <= j < i ==> #[trigger] outcomes[j] == FetchOutcome::NotFound
}

/// Over a whole request, the candidate resolutions run from the next lower
/// resolution down, at most four of them. While every fetch so far reported
/// a missing graph, the next candidate is tried, and once all are missing
/// there is no suitable graph. Otherwise the first fetch that found a graph
/// or failed decides: a found graph is routed on at its resolution, which is
/// the highest resolution at which a graph exists, every higher candidate
/// having been missing; a failed fetch is the answer.
pub proof fn lemma_prerouting_decision_request(h3_resolution: u8, outcomes: Seq<FetchOutcome>)
    requires
        outcomes.len() <= prerouting_resolutions_view(h3_resolution).len(),
    ensures
        prerouting_resolutions_view(h3_resolution).len() == (if h3_resolution >= 4 { 4 } else { h3_resolution as int }),
        forall|i: int| 0 <= i < prerouting_resolutions_view(h3_resolution).len()
            ==> #[trigger] prerouting_resolutions_view(h3_resolution)[i] == h3_resolution - 1 - i,
        (forall|j: int| 0 <= j < outcomes.len() ==> #[trigger] outcomes[j] == FetchOutcome::NotFound) ==> prerouting_decision_view(h3_resolution, outcomes) == (
            if outcomes.len() < prerouting_resolutions_view(h3_resolution).len() {
                PreroutingDecision::TryNext
            } else {
                PreroutingDecision::NoSuitableGraph
            }),
        forall|i: int| #[trigger] first_decisive_fetch(outcomes, i) ==> prerouting_decision_view(h3_resolution, outcomes) == (
            if outcomes[i] == FetchOutcome::Found {
                PreroutingDecision::UseResolution(prerouting_resolutions_view(h3_resolution)[i])
            } else {
                PreroutingDecision::FetchFailed
            }),
    decreases outcomes.len(),
{
    let c = prerouting_resolutions_view(h3_resolution);
    if outcomes.len() > 0 {
        let init = outcomes.drop_last();
        let n = outcomes.len() as int;
        lemma_prerouting_decision_request(h3_resolution, init);
        assert forall|i: int| #[trigger] first_decisive_fetch(outcomes, i) implies prerouting_decision_view(h3_resolution, outcomes) == (
            if outcomes[i] == FetchOutcome::Found {
                PreroutingDecision::UseResolution(c[i])
            } else {
                PreroutingDecision::FetchFailed
            }) by {
            if i < n - 1 {
                assert(init[i] == outcomes[i]);
                assert forall|j: int| 0 <= j < i implies #[trigger] init[j] == FetchOutcome::NotFound by {
                    assert(init[j] == outcomes[j]);
                }
                assert(first_decisive_fetch(init, i));
            } else {
                assert forall|j: int| 0 <= j < init.len() implies #[trigger] init[j] == FetchOutcome::NotFound by {
                    assert(init[j] == outcomes[j]);
                }
                assert(outcomes.last() == outcomes[i]);
            }
        }
        if forall|j: int| 0 <= j < outcomes.len() ==> #[trigger] outcomes[j] == FetchOutcome::NotFound {
            assert forall|j: int| 0 <= j < init.len() implies #[trigger] init[j] == FetchOutcome::NotFound by {
                assert(init[j] == outcomes[j]);
            }
            assert(outcomes.last() == outcomes[n - 1]);
        }
    }
}

/// The decision after the fetches `outcomes` of the graphs at the candidate
/// resolutions of [`prerouting_resolutions`] (see
/// [`prerouting_decision_view`]).
pub fn prerouting_decision(h3_resolution: u8, outcomes: &Vec<FetchOutcome>) -> (r: PreroutingDecision)
    requires
        outcomes@.len() <= prerouting_resolutions_view(h3_resolution).len(),
    ensures
        r == prerouting_decision_view(h3_resolution, outcomes@),
{
    let candidates = prerouting_resolutions(h3_resolution);
    let mut decision = if candidates.len() > 0 {
        PreroutingDecision::TryNext
    } else {
        PreroutingDecision::NoSuitableGraph
    };
    let n = outcomes.len();
    for i in 0..n
        invariant
            n == outcomes@.len(),
            n <= candidates@.len(),
            candidates@ == prerouting_resolutions_view(h3_resolution),
            decision == prerouting_decision_view(h3_resolution, outcomes@.take(i as int)),
    {
        assert(outcomes@.take(i + 1).drop_last() == outcomes@.take(i as int));
        assert(outcomes@.take(i + 1).last() == outcomes@[i as int]);
        if decision == PreroutingDecision::TryNext {
            decision = match outcomes[i] {
                FetchOutcome::Found => PreroutingDecision::UseResolution(candidates[i]),
                FetchOutcome::Failed => PreroutingDecision::FetchFailed,
                FetchOutcome::NotFound => if i + 1 < candidates.len() {
                    PreroutingDecision::TryNext
                } else {
                    PreroutingDecision::NoSuitableGraph
                },
            };
        }
    }
    assert(outcomes@.take(n as int) == outcomes@);
    decision
}

/// The cells of a requested cell selection and whether its dataset is to be
/// loaded: `None` when no selection was given (the request is refused);
/// otherwise the cells of [`selection_cells`], and the dataset is loaded
/// when there are cells and the selection names a dataset.
pub fn plan_cell_selection(selection: &Option<(Vec<u64>, String)>, h3_resolution: u8) -> (r: Option<(Vec<CellIndex>, bool)>)
    requires
        h3_resolution <= MAX_RESOLUTION,
    ensures
        selection is None <==> r is None,
        selection matches Some((raw, dataset_name)) ==> (r matches Some((cells, load)) && {
            &&& strictly_increasing(cells_view(cells@))
            &&& (forall|x: u64| cells_view(cells@).contains(x) <==> transform_cells(valid_cells(raw@), h3_resolution).contains(x))
            &&& load == (cells@.len() > 0 && dataset_name@.len() > 0)
        }),
{
    match selection {
        None => None,
        Some((raw, dataset_name)) => {
            let cells = selection_cells(raw, h3_resolution);
            let load = cells.len() > 0 && dataset_name.as_str().unicode_len() > 0;
            Some((cells, load))
        },
    }
}

/// The cells of a selection once its dataset was loaded: those holding data
/// in the dataset (see [`filter_cells_by_contents`]), none when the dataset
/// holds nothing for them (`contents` is `None`).
pub fn loaded_selection_cells(cells: &mut Vec<CellIndex>, contents: Option<&H3Treemap<CellIndex>>)
    ensures
        contents matches Some(t) ==> cells_view(final(cells)@) == cells_view(old(cells)@).filter(|c: u64| t@.contains(c)),
        contents is None ==> final(cells)@.len() == 0,
{
    match contents {
        Some(t) => filter_cells_by_contents(cells, t),
        None => {
            *cells = Vec::new();
        },
    }
}

/// The routing results at the coarser resolution: each cell with whether
/// its routes stayed the same with the disturbance.
pub open spec fn diff_view(diff: Seq<(CellIndex, bool)>) -> Seq<(u64, bool)> {
    diff.map_values(|d: (CellIndex, bool)| (d.0@, d.1))
}

/// The result for `cell` changed with the disturbance.
pub open spec fn changed_in(diff: Seq<(u64, bool)>, cell: u64) -> bool {
    exists|j: int| 0 <= j < diff.len() && (#[trigger] diff[j]).0 == cell && !diff[j].1
}

/// A cell is affected when a cell within `k` grid steps of it changed.
pub open spec fn is_affected(diff: Seq<(u64, bool)>, cell: u64, k: u32) -> bool {
    exists|i: int| 0 <= i < h3_grid_disk_distances(cell, k).len() && changed_in(
        diff,
        (#[trigger] h3_grid_disk_distances(cell, k)[i]).0,
    )
}

/// A cell is affected by the disturbance exactly when some cell within `k`
/// grid steps of it (the cell itself included where the grid disk lists
/// it) was routed at the coarser resolution with a result that changed
/// once the disturbance was excluded (its flag is `false`, the routes not
/// staying the same).
pub proof fn lemma_affected_cells(diff: Seq<(u64, bool)>, cell: u64, k: u32)
    ensures
        is_affected(diff, cell, k) <==> exists|i: int, j: int|
            0 <= i < h3_grid_disk_distances(cell, k).len() && 0 <= j < diff.len()
                && #[trigger] diff[j].0 == #[trigger] h3_grid_disk_distances(cell, k)[i].0 && diff[j].1 == false,
{
    let disk = h3_grid_disk_distances(cell, k);
    if is_affected(diff, cell, k) {
        let i = choose|i: int| 0 <= i < disk.len() && changed_in(diff, (#[trigger] disk[i]).0);
        let j = choose|j: int| 0 <= j < diff.len() && (#[trigger] diff[j]).0 == disk[i].0 && !diff[j].1;
        assert(diff[j].0 == disk[i].0 && diff[j].1 == false);
    }
    if exists|i: int, j: int| 0 <= i < disk.len() && 0 <= j < diff.len() && #[trigger] diff[j].0 == #[trigger] disk[i].0
        && diff[j].1 == false {
        let (i, j) = choose|i: int, j: int| 0 <= i < disk.len() && 0 <= j < diff.len() && #[trigger] diff[j].0 == #[trigger] disk[i].0
            && diff[j].1 == false;
        assert(changed_in(diff, disk[i].0));
    }
}

/// The cells of a coarser-resolution routing result that are affected by
/// the disturbance: those with a cell of changed routes within `k` grid
/// steps. The grid disk makes up for the coarser resolution at the border of
/// the effect. Each cell is listed once in `diff`.
pub fn affected_cells(diff: &Vec<(CellIndex, bool)>, k: u32) -> (r: H3Treemap<CellIndex>)
    requires
        forall|a: int, b: int| 0 <= a < b < diff@.len() ==> diff@[a].0@ != diff@[b].0@,
    ensures
        forall|c: u64| #[trigger] r@.contains(c) <==> (exists|j: int| 0 <= j < diff@.len() && #[trigger] diff@[j].0@ == c)
            && is_affected(diff_view(diff@), c, k),
{
    let ghost dv = diff_view(diff@);
    let mut changed = U64Map::new();
    let n = diff.len();
    for i in 0..n
        invariant
            n == diff@.len(),
            dv == diff_view(diff@),
            forall|a: int, b: int| 0 <= a < b < diff@.len() ==> diff@[a].0@ != diff@[b].0@,
            forall|c: u64| #[trigger] changed@.dom().contains(c) <==> exists|j: int| 0 <= j < i && #[trigger] dv[j].0 == c,
            forall|j: int| 0 <= j < i ==> changed@[#[trigger] dv[j].0] == (if dv[j].1 { 0u64 } else { 1u64 }),
    {
        let (cell, unchanged) = diff[i];
        assert(dv[i as int] == (cell@, unchanged));
        let ghost before = changed@;
        changed.insert(cell.to_u64(), if unchanged { 0 } else { 1 });
        assert forall|j: int| 0 <= j < i + 1 implies changed@[#[trigger] dv[j].0] == (if dv[j].1 { 0u64 } else { 1u64 }) by {
            if j < i {
                assert(diff@[j].0@ != diff@[i as int].0@);
            }
        }
        assert forall|c: u64| #[trigger] changed@.dom().contains(c) <==> exists|j: int| 0 <= j < i + 1 && #[trigger] dv[j].0 == c by {
            if c == cell@ {
                assert(dv[i as int].0 == c);
            }
        }
    }
    let mut affected: H3Treemap<CellIndex> = H3Treemap::new();
    for i in 0..n
        invariant
            n == diff@.len(),
            dv == diff_view(diff@),
            forall|a: int, b: int| 0 <= a < b < diff@.len() ==> diff@[a].0@ != diff@[b].0@,
            forall|c: u64| #[trigger] changed@.dom().contains(c) <==> exists|j: int| 0 <= j < n && #[trigger] dv[j].0 == c,
            forall|j: int| 0 <= j < n ==> changed@[#[trigger] dv[j].0] == (if dv[j].1 { 0u64 } else { 1u64 }),
            forall|c: u64| #[trigger] affected@.contains(c) <==> (exists|j: int| 0 <= j < i && #[trigger] dv[j].0 == c)
                && is_affected(dv, c, k),
    {
        let cell = diff[i].0;
        assert(dv[i as int].0 == cell@);
        let disk = cell.grid_disk_distances(k);
        let ghost dk = disk@.map_values(|p: (CellIndex, u32)| (p.0@, p.1));
        let mut any_changed = false;
        let m = disk.len();
        for j in 0..m
            invariant
                m == disk@.len(),
                n == diff@.len(),
                dv == diff_view(diff@),
                forall|a: int, b: int| 0 <= a < b < diff@.len() ==> diff@[a].0@ != diff@[b].0@,
                dk == disk@.map_values(|p: (CellIndex, u32)| (p.0@, p.1)),
                dk == h3_grid_disk_distances(cell@, k),
                forall|c: u64| #[trigger] changed@.dom().contains(c) <==> exists|j2: int| 0 <= j2 < n && #[trigger] dv[j2].0 == c,
                forall|j2: int| 0 <= j2 < n ==> changed@[#[trigger] dv[j2].0] == (if dv[j2].1 { 0u64 } else { 1u64 }),
                any_changed == exists|x: int| 0 <= x < j && changed_in(dv, (#[trigger] dk[x]).0),
        {
            let ring_cell = disk[j].0;
            assert(dk[j as int].0 == ring_cell@);
            let c = ring_cell.to_u64();
            let is_changed = match changed.get(c) {
                Some(flag) => flag == 1,
                None => false,
            };
            proof {
                if changed@.dom().contains(c) {
                    let j2 = choose|j2: int| 0 <= j2 < n && #[trigger] dv[j2].0 == c;
                    assert(changed_in(dv, c) == !dv[j2].1) by {
                        if changed_in(dv, c) {
                            let j3 = choose|j3: int| 0 <= j3 < dv.len() && (#[trigger] dv[j3]).0 == c && !dv[j3].1;
                            assert(dv[j3] == (diff@[j3].0@, diff@[j3].1));
                            assert(dv[j2] == (diff@[j2].0@, diff@[j2].1));
                            assert(diff@[j3].0@ == diff@[j2].0@);
                            if j3 != j2 {
                                if j3 < j2 {
                                    assert(diff@[j3].0@ != diff@[j2].0@);
                                } else {
                                    assert(diff@[j2].0@ != diff@[j3].0@);
                                }
                            }
                        }
                    }
                } else {
                    assert(!changed_in(dv, c)) by {
                        if changed_in(dv, c) {
                            let j3 = choose|j3: int| 0 <= j3 < dv.len() && (#[trigger] dv[j3]).0 == c && !dv[j3].1;
                            assert(dv[j3].0 == c);
                        }
                    }
                }
            }
            assert(is_changed == changed_in(dv, dk[j as int].0));
            any_changed = any_changed || is_changed;
        }
        let ghost before = affected@;
        if any_changed {
            affected.insert(cell);
        }
        assert(any_changed == is_affected(dv, cell@, k));
        assert forall|c: u64| #[trigger] affected@.contains(c) <==> (exists|j: int| 0 <= j < i + 1 && #[trigger] dv[j].0 == c)
            && is_affected(dv, c, k) by {
            if c == cell@ {
                assert(dv[i as int].0 == c);
            }
            if exists|j: int| 0 <= j < i + 1 && #[trigger] dv[j].0 == c {
                let j = choose|j: int| 0 <= j < i + 1 && #[trigger] dv[j].0 == c;
                if j < i {
                } else {
                    assert(c == cell@);
                }
            }
        }
    }
    assert forall|c: u64| #[trigger] affected@.contains(c) <==> (exists|j: int| 0 <= j < diff@.len() && #[trigger] diff@[j].0@ == c)
        && is_affected(dv, c, k) by {
        if exists|j: int| 0 <= j < diff@.len() && #[trigger] diff@[j].0@ == c {
            let j = choose|j: int| 0 <= j < diff@.len() && #[trigger] diff@[j].0@ == c;
            assert(dv[j].0 == c);
        }
        if exists|j: int| 0 <= j < n && #[trigger] dv[j].0 == c {
            let j = choose|j: int| 0 <= j < n && #[trigger] dv[j].0 == c;
            assert(diff@[j].0@ == c);
        }
    }
    affected
}

/// The destination cells of a request: the cells of its destination points
/// in increasing order, each once.
pub fn destination_cells(cells: &Vec<CellIndex>) -> (r: Vec<CellIndex>)
    ensures
        strictly_increasing(cells_view(r@)),
        forall|x: u64| cells_view(r@).contains(x) <==> cells_view(cells@).contains(x),
{
    let r = sorted_dedup(cells);
    assert(index_values(cells@) == cells_view(cells@));
    assert(index_values(r@) == cells_view(r@));
    r
}

} // verus!
