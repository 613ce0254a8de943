use std::collections::HashSet;

use geo::{Coord, Line};
use h3o::geom::PlotterBuilder;
use h3o::{LatLng, Resolution};
use hexigraph::algorithm::edge::continuous_cells_to_edges;
use hexigraph::algorithm::nearest::nearest_graph_nodes;
use hexigraph::algorithm::path::{DirectedEdgePath, Path};
use hexigraph::algorithm::resolution::transform_resolution;
use hexigraph::algorithm::within_threshold::{cells_within_weight_threshold, cells_within_weight_threshold_many};
use hexigraph::graph::h3edge::H3EdgeGraph;
use hexigraph::graph::node::NodeType;
use hexigraph::graph::prepared::PreparedH3EdgeGraph;
use hexigraph::graph::modifiers::ExcludeCells;
use hexigraph::graph::GetStats;
use hexigraph::h3::{CellIndex, DirectedEdgeIndex};
use hexigraph::routing::selection::{filter_cells_by_contents, prerouting_resolutions};
use hexigraph::routing::statistics::{shortest_path_rows, ShortestPathRow};
use hexigraph::algorithm::path::PathLine;
use hexigraph::treemap::H3Treemap;

fn cell(c: h3o::CellIndex) -> CellIndex {
    CellIndex::try_from_u64(u64::from(c)).unwrap()
}

/// A graph whose nodes, once the cells of the returned treemap are
/// excluded, are exactly `cells`, each with both roles.
fn graph_with_nodes(cells: &[h3o::CellIndex]) -> (PreparedH3EdgeGraph, H3Treemap<CellIndex>) {
    let wanted: HashSet<h3o::CellIndex> = cells.iter().copied().collect();
    let mut graph = H3EdgeGraph::new(u8::from(cells[0].resolution()));
    let mut excluded: Vec<CellIndex> = Vec::new();
    for c in cells {
        let e = c.edges().next().unwrap();
        let neighbor = e.destination();
        graph.add_edge(DirectedEdgeIndex::try_from_u64(u64::from(e)).unwrap(), 1);
        let back = neighbor.edge(*c).unwrap();
        graph.add_edge(DirectedEdgeIndex::try_from_u64(u64::from(back)).unwrap(), 1);
        if !wanted.contains(&neighbor) {
            excluded.push(cell(neighbor));
        }
    }
    (PreparedH3EdgeGraph::try_from(graph).unwrap(), H3Treemap::from_indexes(&excluded))
}

#[test]
fn nearest_finds_given_cell_first() {
    let c = h3o::CellIndex::try_from(0x89283080ddbffff_u64).unwrap();
    let disk: Vec<h3o::CellIndex> = c.grid_disk(3);
    let (graph, excluded) = graph_with_nodes(&disk);
    let nodes = ExcludeCells::new(&graph, &excluded);
    let found = nearest_graph_nodes(&nodes, cell(c), 3).unwrap();
    assert_eq!(found.len(), 1);
    assert_eq!(found.first().copied(), Some((cell(c), NodeType::OriginAndDestination, 0)));
}

#[test]
fn nearest_finds_all_with_same_k() {
    let c = h3o::CellIndex::try_from(0x89283080ddbffff_u64).unwrap();
    let mut cellset: Vec<h3o::CellIndex> = Vec::new();
    let mut expected = HashSet::new();
    let distances: Vec<(h3o::CellIndex, u32)> = c.grid_disk_distances(3);
    for (ring_cell, _) in distances.into_iter().filter(|(_, k)| *k >= 2).take(2) {
        cellset.push(ring_cell);
        expected.insert(u64::from(ring_cell));
    }
    let distances: Vec<(h3o::CellIndex, u32)> = c.grid_disk_distances(5);
    for (ring_cell, _) in distances.into_iter().filter(|(_, k)| *k >= 4).take(2) {
        cellset.push(ring_cell);
    }
    let (graph, excluded) = graph_with_nodes(&cellset);
    let nodes = ExcludeCells::new(&graph, &excluded);
    let found = nearest_graph_nodes(&nodes, cell(c), 8).unwrap();
    assert_eq!(found.len(), 2);
    for (nearest_cell, _, _) in found {
        assert!(expected.contains(&nearest_cell.to_u64()));
    }
}

#[test]
fn nearest_finds_nothing_out_of_reach() {
    let c = h3o::CellIndex::try_from(0x89283080ddbffff_u64).unwrap();
    let far: Vec<(h3o::CellIndex, u32)> = c.grid_disk_distances(4);
    let ring: Vec<h3o::CellIndex> = far.into_iter().filter(|(_, k)| *k == 4).map(|(x, _)| x).collect();
    let (graph, excluded) = graph_with_nodes(&ring);
    let nodes = ExcludeCells::new(&graph, &excluded);
    assert!(nearest_graph_nodes(&nodes, cell(c), 3).unwrap().is_empty());
    let found = nearest_graph_nodes(&nodes, cell(c), 4).unwrap();
    assert_eq!(found.len(), 24);
    assert!(found.iter().all(|(_, _, k)| *k == 4));
}

fn single_edge_path(index: u64) -> DirectedEdgePath {
    DirectedEdgePath::DirectedEdgeSequence(vec![DirectedEdgeIndex::try_from_u64(index).unwrap()])
}

#[test]
fn pathdirectededges_deterministic_ordering() {
    let r1 = single_edge_path(0x1176b49474ffffff);
    let r2 = single_edge_path(0x1476b49474ffffff);
    let mut paths = vec![r2.clone(), r1.clone()];
    paths.sort_unstable_by(|a, b| a.cmp(b));
    assert_eq!(paths[0], r1);
    assert_eq!(paths[1], r2);
}

#[test]
fn paths_deterministic_ordering() {
    let r1 = Path::try_from(single_edge_path(0x1176b49474ffffff), 1).unwrap();
    let r2 = Path::try_from(single_edge_path(0x1476b49474ffffff), 3).unwrap();
    let r3 = Path::try_from(single_edge_path(0x1476b4b2c2ffffff), 3).unwrap();
    let mut paths = vec![r3.clone(), r1.clone(), r2.clone()];
    paths.sort_unstable_by(|a, b| a.cmp(b));
    assert_eq!(paths[0], r1);
    assert_eq!(paths[1], r2);
    assert_eq!(paths[2], r3);
}

#[test]
fn empty_path_has_no_cells() {
    assert!(DirectedEdgePath::DirectedEdgeSequence(vec![]).origin_cell().is_err());
    assert!(DirectedEdgePath::DirectedEdgeSequence(vec![]).destination_cell().is_err());
    assert!(Path::try_from(DirectedEdgePath::DirectedEdgeSequence(vec![]), 1).is_err());
}

/// A simple graph consisting of a single line.
fn line_graph(default_weight: u64) -> (Vec<CellIndex>, PreparedH3EdgeGraph) {
    let mut plotter = PlotterBuilder::new(Resolution::Four).build();
    plotter
        .add(Line::new(Coord { x: 10.0, y: 20.0 }, Coord { x: 20.0, y: 20.0 }))
        .unwrap();
    let mut cell_sequence: Vec<CellIndex> = Vec::new();
    for c in plotter.plot() {
        let c = cell(c.unwrap());
        if cell_sequence.last() != Some(&c) {
            cell_sequence.push(c);
        }
    }
    let mut g = H3EdgeGraph::new(4);
    for edge in continuous_cells_to_edges(&cell_sequence) {
        g.add_edge(edge, default_weight);
    }
    (cell_sequence, PreparedH3EdgeGraph::try_from(g).unwrap())
}

#[test]
fn test_cells_within_weight_threshold() {
    let (cell_sequence, prepared_graph) = line_graph(10);
    assert!(prepared_graph.get_stats().unwrap().num_edges > 10);
    let within_threshold = cells_within_weight_threshold(&prepared_graph, cell_sequence[0], 30).unwrap();
    assert_eq!(within_threshold.len(), 4);
    let weights: Vec<u64> = within_threshold.iter().map(|(_, w)| *w).collect();
    assert!(weights.contains(&0));
    assert!(weights.contains(&10));
    assert!(weights.contains(&20));
    assert!(weights.contains(&30));
}

#[test]
fn test_cells_within_weight_threshold_many() {
    let (cell_sequence, prepared_graph) = line_graph(10);
    assert!(prepared_graph.get_stats().unwrap().num_edges > 20);

    let origin_cells = vec![
        cell_sequence[0],
        cell_sequence[1], // overlaps with the previous cell
        cell_sequence[10],
    ];

    let within_threshold = cells_within_weight_threshold_many(
        &prepared_graph,
        &origin_cells,
        30,
        // use the minimum weight encountered
        |existing: u64, new: u64| if new < existing { new } else { existing },
    )
    .unwrap();
    assert_eq!(within_threshold.len(), 9);
    let count = |w: u64| within_threshold.iter().filter(|(_, x)| *x == w).count();
    assert_eq!(count(0), 3);
    assert_eq!(count(10), 2);
    assert_eq!(count(20), 2);
    assert_eq!(count(30), 2);
}

#[test]
fn within_threshold_of_zero_is_the_origin() {
    let (cell_sequence, prepared_graph) = line_graph(10);
    let within_threshold = cells_within_weight_threshold(&prepared_graph, cell_sequence[0], 0).unwrap();
    assert_eq!(within_threshold, vec![(cell_sequence[0], 0)]);
}

fn cell_at(resolution: Resolution) -> CellIndex {
    cell(LatLng::try_from(Coord::from((12.3, 45.4))).unwrap().to_cell(resolution))
}

#[test]
fn transform_resolution_same_res() {
    let c = cell_at(Resolution::Six);
    let changed = transform_resolution(&vec![c], 6);
    assert_eq!(changed.len(), 1);
    assert_eq!(changed[0], c);
}

#[test]
fn transform_resolution_lower_res() {
    let c = cell_at(Resolution::Six);
    let changed = transform_resolution(&vec![c], 5);
    assert_eq!(changed.len(), 1);
    assert_eq!(changed[0].resolution(), 5);
    assert_eq!(Some(changed[0]), c.parent(5));
}

#[test]
fn transform_resolution_higher_res() {
    let c = cell_at(Resolution::Six);
    let changed = transform_resolution(&vec![c], 7);
    assert_eq!(changed.len(), 7);
    assert_eq!(changed[0].resolution(), 7);
}

#[test]
fn iter() {
    let idx = h3o::CellIndex::try_from(0x89283080ddbffff_u64).unwrap();
    let cells: Vec<CellIndex> = idx.grid_disk::<Vec<_>>(1).into_iter().map(cell).collect();
    let treemap: H3Treemap<CellIndex> = H3Treemap::from_indexes(&cells);
    assert_eq!(treemap.len(), 7);
    assert!(treemap.contains(&cell(idx)));
    assert_eq!(treemap.iter().len(), 7);
}

#[test]
fn treemap_insert_then_contains() {
    let idx = h3o::CellIndex::try_from(0x89283080ddbffff_u64).unwrap();
    let mut treemap: H3Treemap<CellIndex> = H3Treemap::new();
    assert!(treemap.is_empty());
    assert!(treemap.insert(cell(idx)));
    assert!(!treemap.insert(cell(idx)));
    assert!(treemap.contains(&cell(idx)));
    assert_eq!(treemap.len(), 1);
}

#[test]
fn cell_to_string_is_hex() {
    let c = CellIndex::try_from_u64(0x89283080ddbffff).unwrap();
    assert_eq!(c.to_string(), "89283080ddbffff");
    assert_eq!(c.to_string(), h3o::CellIndex::try_from(0x89283080ddbffff_u64).unwrap().to_string());
}

#[test]
fn filter_cells_by_dataframe_contents() {
    let idx = h3o::CellIndex::try_from(0x89283080ddbffff_u64).unwrap();
    let disk: Vec<CellIndex> = idx.grid_disk::<Vec<_>>(1).into_iter().map(cell).collect();
    let contents: H3Treemap<CellIndex> = H3Treemap::from_indexes(&vec![disk[0], disk[3]]);
    let mut cells = disk.clone();
    filter_cells_by_contents(&mut cells, &contents);
    assert_eq!(cells, vec![disk[0], disk[3]]);
    let mut cells = disk.clone();
    filter_cells_by_contents(&mut cells, &H3Treemap::new());
    assert!(cells.is_empty());
}

#[test]
fn prerouting_resolution_order() {
    assert_eq!(prerouting_resolutions(10), vec![9, 8, 7, 6]);
    assert_eq!(prerouting_resolutions(2), vec![1, 0]);
    assert!(prerouting_resolutions(0).is_empty());
}

#[test]
fn treemap_set_relations() {
    let idx = h3o::CellIndex::try_from(0x89283080ddbffff_u64).unwrap();
    let disk: Vec<CellIndex> = idx.grid_disk::<Vec<_>>(1).into_iter().map(cell).collect();
    let all: H3Treemap<CellIndex> = H3Treemap::from_indexes(&disk);
    let some: H3Treemap<CellIndex> = H3Treemap::from_indexes(&disk[..3].to_vec());
    let others: H3Treemap<CellIndex> = H3Treemap::from_indexes(&disk[3..].to_vec());
    assert!(some.is_subset(&all));
    assert!(!all.is_subset(&some));
    assert!(all.is_superset(&some));
    assert!(!some.is_superset(&all));
    assert!(some.is_disjoint(&others));
    assert!(!some.is_disjoint(&all));
    let values = all.iter();
    assert!(values.windows(2).all(|w| w[0].to_u64() < w[1].to_u64()));
}

#[test]
fn edges_from_cell_lists_graph_edges_only() {
    let c = h3o::CellIndex::try_from(0x89283080ddbffff_u64).unwrap();
    let edges: Vec<DirectedEdgeIndex> =
        c.edges().map(|e| DirectedEdgeIndex::try_from_u64(u64::from(e)).unwrap()).collect();
    let mut graph = H3EdgeGraph::new(9);
    graph.add_edge(edges[1], 4);
    graph.add_edge(edges[4], 2);
    let from = graph.edges_from_cell(cell(c));
    assert_eq!(from, vec![(edges[1], 4), (edges[4], 2)]);
    assert!(graph.edges_from_cell(edges[1].destination()).is_empty());
}

#[test]
fn within_threshold_avoids_excluded_cells() {
    let (cell_sequence, prepared_graph) = line_graph(10);
    let excluded: H3Treemap<CellIndex> = H3Treemap::from_indexes(&vec![cell_sequence[2]]);
    let graph = ExcludeCells::new(&prepared_graph, &excluded);
    let mut within = cells_within_weight_threshold(&graph, cell_sequence[0], 30).unwrap();
    within.sort_by_key(|(c, _)| c.to_u64());
    let mut expected = vec![(cell_sequence[0], 0), (cell_sequence[1], 10)];
    expected.sort_by_key(|(c, _)| c.to_u64());
    assert_eq!(within, expected);
}

#[test]
fn shortest_path_rows_keep_every_origin() {
    let p1 = Path::try_from(single_edge_path(0x1176b49474ffffff), 1).unwrap();
    let p2 = Path::try_from(single_edge_path(0x1476b49474ffffff), 3).unwrap();
    let o1 = p1.origin_cell;
    let o2 = cell(h3o::CellIndex::try_from(0x89283080ddbffff_u64).unwrap());
    let rows = shortest_path_rows(&vec![(o1, vec![p1.clone(), p2.clone()]), (o2, vec![])]);
    assert_eq!(
        rows,
        vec![
            ShortestPathRow {
                h3index_origin: o1.to_u64(),
                h3index_destination: Some(p1.destination_cell.to_u64()),
                path_index: Some(0),
            },
            ShortestPathRow {
                h3index_origin: o1.to_u64(),
                h3index_destination: Some(p2.destination_cell.to_u64()),
                path_index: Some(1),
            },
            ShortestPathRow { h3index_origin: o2.to_u64(), h3index_destination: None, path_index: None },
        ]
    );
    assert!(shortest_path_rows(&vec![]).is_empty());
}

#[test]
fn nearest_lists_each_cell_once() {
    let c = h3o::CellIndex::try_from(0x89283080ddbffff_u64).unwrap();
    let ring: Vec<h3o::CellIndex> =
        c.grid_disk_distances::<Vec<_>>(2).into_iter().filter(|(_, k)| *k == 2).map(|(x, _)| x).collect();
    let (graph, excluded) = graph_with_nodes(&ring);
    let nodes = ExcludeCells::new(&graph, &excluded);
    let found = nearest_graph_nodes(&nodes, cell(c), 5).unwrap();
    let distinct: HashSet<u64> = found.iter().map(|(x, _, _)| x.to_u64()).collect();
    assert_eq!(found.len(), 12);
    assert_eq!(distinct.len(), found.len());
}

#[test]
fn continuous_path_cells_and_line() {
    let first = h3o::CellIndex::try_from(0x89283080ddbffff_u64).unwrap();
    let second = first.edges().next().unwrap().destination();
    let third = second.edges().map(|e| e.destination()).find(|x| *x != first).unwrap();
    let line: Vec<CellIndex> = vec![cell(first), cell(second), cell(second), cell(third)];
    let edges = continuous_cells_to_edges(&line);
    assert_eq!(edges.len(), 2);
    let path = DirectedEdgePath::DirectedEdgeSequence(edges.clone());
    assert_eq!(path.cells(), vec![cell(first), cell(second), cell(third)]);
    assert_eq!(path.to_line(), Ok(PathLine::Cells(vec![cell(first), cell(second), cell(third)])));
    let broken = DirectedEdgePath::DirectedEdgeSequence(vec![edges[1], edges[0]]);
    assert!(broken.to_line().is_err());
}

#[test]
fn threshold_many_folds_weights_with_agg_fn() {
    let (cell_sequence, prepared_graph) = line_graph(10);
    let origin_cells = vec![cell_sequence[0], cell_sequence[1], cell_sequence[10]];
    let weight_of = |found: &Vec<(CellIndex, u64)>, c: CellIndex| found.iter().find(|(x, _)| *x == c).map(|(_, w)| *w);
    let largest =
        cells_within_weight_threshold_many(&prepared_graph, &origin_cells, 30, |a: u64, b: u64| if a < b { b } else { a })
            .unwrap();
    assert_eq!(largest.len(), 9);
    let expected_max = [0, 10, 20, 30, 30];
    for (k, w) in expected_max.iter().enumerate() {
        assert_eq!(weight_of(&largest, cell_sequence[k]), Some(*w));
    }
    let summed =
        cells_within_weight_threshold_many(&prepared_graph, &origin_cells, 30, |a: u64, b: u64| a.saturating_add(b)).unwrap();
    let expected_sum = [0, 10, 30, 50, 30];
    for (k, w) in expected_sum.iter().enumerate() {
        assert_eq!(weight_of(&summed, cell_sequence[k]), Some(*w));
    }
    assert_eq!(weight_of(&summed, cell_sequence[12]), Some(20));
}
