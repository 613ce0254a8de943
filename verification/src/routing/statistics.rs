//! Figures of the routes found around a disturbance, per origin cell.
use vstd::prelude::*;
use crate::h3::CellIndex;
use crate::algorithm::path::Path;

verus! {

/// The routes from one origin cell, found without and with the disturbance
/// excluded from the graph.
pub struct ExclusionDiff {
    pub before_cell_exclusion: Vec<Path>,
    pub after_cell_exclusion: Vec<Path>,
}

/// The figures of the routes of one origin cell that do not need floating
/// point: how many destinations were reached and the preferred (first)
/// destination, without and with the disturbance.
#[derive(Clone, Copy, PartialEq, Eq, Structural, Debug)]
pub struct DisturbanceStatistics {
    pub h3index_origin: u64,
    pub preferred_dest_h3index_without_disturbance: Option<u64>,
    pub num_reached_without_disturbance: u64,
    pub preferred_dest_h3index_with_disturbance: Option<u64>,
    pub num_reached_with_disturbance: u64,
}

/// The destination of the first route, if there is one.
pub open spec fn preferred_destination(paths: Seq<Path>) -> Option<u64> {
    if paths.len() == 0 {
        None
    } else {
        Some(paths[0].destination_cell@)
    }
}

/// The figures of the routes of `origin`.
pub open spec fn statistics_of(origin: CellIndex, diff: ExclusionDiff) -> DisturbanceStatistics {
    DisturbanceStatistics {
        h3index_origin: origin@,
        preferred_dest_h3index_without_disturbance: preferred_destination(diff.before_cell_exclusion@),
        num_reached_without_disturbance: diff.before_cell_exclusion@.len() as u64,
        preferred_dest_h3index_with_disturbance: preferred_destination(diff.after_cell_exclusion@),
        num_reached_with_disturbance: diff.after_cell_exclusion@.len() as u64,
    }
}

/// The destination of the first route, if there is one.
fn first_destination(paths: &Vec<Path>) -> (r: Option<u64>)
    ensures
        r == preferred_destination(paths@),
{
    if paths.len() == 0 {
        None
    } else {
        Some(paths[0].destination_cell.to_u64())
    }
}

/// The figures of the routes of each origin cell, in the order of the
/// origins.
pub fn disturbance_statistics(diffs: &Vec<(CellIndex, ExclusionDiff)>) -> (r: Vec<DisturbanceStatistics>)
    ensures
        r@.len() == diffs@.len(),
        forall|i: int| 0 <= i < diffs@.len() ==> #[trigger] r@[i] == statistics_of(diffs@[i].0, diffs@[i].1),
{
    let mut out: Vec<DisturbanceStatistics> = Vec::new();
    let n = diffs.len();
    for i in 0..n
        invariant
            n == diffs@.len(),
            out@.len() == i,
            forall|j: int| 0 <= j < i ==> #[trigger] out@[j] == statistics_of(diffs@[j].0, diffs@[j].1),
    {
        let (origin, diff) = (&diffs[i].0, &diffs[i].1);
        let without = &diff.before_cell_exclusion;
        let with = &diff.after_cell_exclusion;
        out.push(DisturbanceStatistics {
            h3index_origin: origin.to_u64(),
            preferred_dest_h3index_without_disturbance: first_destination(without),
            num_reached_without_disturbance: without.len() as u64,
            preferred_dest_h3index_with_disturbance: first_destination(with),
            num_reached_with_disturbance: with.len() as u64,
        });
    }
    out
}

/// One row of the table of shortest paths: the origin cell and, where a path
/// was found, its destination cell and the position of that path among the
/// paths of the origin (where the figures that need floating point are found).
#[derive(Clone, Copy, PartialEq, Eq, Structural, Debug)]
pub struct ShortestPathRow {
    pub h3index_origin: u64,
    pub h3index_destination: Option<u64>,
    pub path_index: Option<usize>,
}

/// The rows of one origin: one per path, in the order of the paths, or a
/// single row without a destination where no path was found.
pub open spec fn origin_rows(origin: CellIndex, paths: Seq<Path>) -> Seq<ShortestPathRow> {
    if paths.len() == 0 {
        seq![ShortestPathRow { h3index_origin: origin@, h3index_destination: None, path_index: None }]
    } else {
        Seq::new(
            paths.len(),
            |j: int|
                ShortestPathRow {
                    h3index_origin: origin@,
                    h3index_destination: Some(paths[j].destination_cell@),
                    path_index: Some(j as usize),
                },
        )
    }
}

/// The rows of all origins, origin after origin.
pub open spec fn shortest_path_table(paths: Seq<(CellIndex, Vec<Path>)>) -> Seq<ShortestPathRow>
    decreases paths.len(),
{
    if paths.len() == 0 {
        Seq::empty()
    } else {
        shortest_path_table(paths.drop_last()) + origin_rows(paths.last().0, paths.last().1@)
    }
}

/// The rows of the table of shortest paths: for each origin, one row per
/// path found, or one row without a destination where none was found, so
/// that every origin keeps at least one row.
pub fn shortest_path_rows(paths: &Vec<(CellIndex, Vec<Path>)>) -> (r: Vec<ShortestPathRow>)
    ensures
        r@ == shortest_path_table(paths@),
{
    let mut out: Vec<ShortestPathRow> = Vec::new();
    let n = paths.len();
    for i in 0..n
        invariant
            n == paths@.len(),
            out@ == shortest_path_table(paths@.take(i as int)),
    {
        proof {
            assert(paths@.take(i as int + 1).drop_last() =~= paths@.take(i as int));
        }
        let origin = &paths[i].0;
        let found = &paths[i].1;
        let ghost before = out@;
        if found.len() == 0 {
            out.push(ShortestPathRow { h3index_origin: origin.to_u64(), h3index_destination: None, path_index: None });
        } else {
            let m = found.len();
            for j in 0..m
                invariant
                    m == found@.len(),
                    out@ == before + Seq::new(
                        j as nat,
                        |k: int|
                            ShortestPathRow {
                                h3index_origin: origin@,
                                h3index_destination: Some(found@[k].destination_cell@),
                                path_index: Some(k as usize),
                            },
                    ),
            {
                out.push(ShortestPathRow {
                    h3index_origin: origin.to_u64(),
                    h3index_destination: Some(found[j].destination_cell.to_u64()),
                    path_index: Some(j),
                });
                proof {
                    assert(out@ =~= before + Seq::new(
                        (j + 1) as nat,
                        |k: int|
                            ShortestPathRow {
                                h3index_origin: origin@,
                                h3index_destination: Some(found@[k].destination_cell@),
                                path_index: Some(k as usize),
                            },
                    ));
                }
            }
        }
        proof {
            assert(out@ =~= before + origin_rows(*origin, found@));
        }
    }
    proof {
        assert(paths@.take(n as int) =~= paths@);
    }
    out
}

/// Every origin keeps at least one row in the table of shortest paths,
/// whether or not a path to a destination was found from it.
pub proof fn lemma_every_origin_has_a_row(paths: Seq<(CellIndex, Vec<Path>)>, i: int)
    requires
        0 <= i < paths.len(),
    ensures
        exists|k: int|
            0 <= k < shortest_path_table(paths).len()
                && (#[trigger] shortest_path_table(paths)[k]).h3index_origin == paths[i].0@,
    decreases paths.len(),
{
    let prefix = shortest_path_table(paths.drop_last());
    let last = origin_rows(paths.last().0, paths.last().1@);
    assert(shortest_path_table(paths) == prefix + last);
    if i == paths.len() - 1 {
        let k = prefix.len() as int;
        assert(last.len() > 0);
        assert(shortest_path_table(paths)[k] == last[0]);
    } else {
        lemma_every_origin_has_a_row(paths.drop_last(), i);
        let k = choose|k: int|
            0 <= k < prefix.len() && (#[trigger] prefix[k]).h3index_origin == paths.drop_last()[i].0@;
        assert(shortest_path_table(paths)[k] == prefix[k]);
    }
}

/// The number of rows of an origin: one per path, or one where it has none.
pub open spec fn origin_row_count(paths: Seq<Path>) -> nat {
    if paths.len() == 0 { 1 } else { paths.len() }
}

/// The sum over origins of their number of rows.
pub open spec fn table_row_count(paths: Seq<(CellIndex, Vec<Path>)>) -> nat
    decreases paths.len(),
{
    if paths.len() == 0 {
        0
    } else {
        table_row_count(paths.drop_last()) + origin_row_count(paths.last().1@)
    }
}

/// The table of shortest paths has, summed over the origins, one row per
/// path found from an origin, or one row for an origin without any path.
pub proof fn lemma_table_row_count(paths: Seq<(CellIndex, Vec<Path>)>)
    ensures
        shortest_path_table(paths).len() == table_row_count(paths),
    decreases paths.len(),
{
    if paths.len() > 0 {
        lemma_table_row_count(paths.drop_last());
    }
}

} // verus!
