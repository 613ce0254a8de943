use geo::{Coord, LineString};
use h3o::geom::PlotterBuilder;
use h3o::{LatLng, Resolution};
use hexigraph::algorithm::edge::{continuous_cells_to_edges, reverse_directed_edge, try_reverse_directed_edge};
use hexigraph::collections::NodeTypeMap;
use hexigraph::graph::builder::{EdgeProperties, H3EdgeGraphBuilder, OsmPbfH3EdgeGraphBuilder};
use hexigraph::error::Error;
use hexigraph::graph::h3edge::{downsample_graph, try_downsample_graph, H3EdgeGraph};
use hexigraph::graph::node::NodeType;
use hexigraph::graph::prepared::PreparedH3EdgeGraph;
use hexigraph::h3::{CellIndex, DirectedEdgeIndex};

fn cell(c: h3o::CellIndex) -> CellIndex {
    CellIndex::try_from_u64(u64::from(c)).unwrap()
}

fn edge(e: h3o::DirectedEdgeIndex) -> DirectedEdgeIndex {
    DirectedEdgeIndex::try_from_u64(u64::from(e)).unwrap()
}

/// The cells along a line, at the given resolution.
fn line_cells(coords: Vec<(f64, f64)>, resolution: Resolution) -> Vec<h3o::CellIndex> {
    let line = LineString::from(coords.into_iter().map(Coord::from).collect::<Vec<_>>());
    let mut plotter = PlotterBuilder::new(resolution).build();
    plotter.add_batch(line.lines()).unwrap();
    let mut cells: Vec<h3o::CellIndex> = Vec::new();
    for c in plotter.plot() {
        let c = c.unwrap();
        if cells.last() != Some(&c) {
            cells.push(c);
        }
    }
    cells
}

fn line_graph() -> H3EdgeGraph {
    let cells = line_cells(vec![(23.3, 12.3), (24.2, 12.2)], Resolution::Eight);
    assert!(cells.len() > 100);
    let mut graph = H3EdgeGraph::new(8);
    for w in cells.windows(2) {
        graph.add_edge(edge(w[0].edge(w[1]).unwrap()), 20);
    }
    graph
}

fn build_line_prepared_graph() -> PreparedH3EdgeGraph {
    let graph = line_graph();
    assert!(graph.num_edges() > 50);
    let prep_graph = PreparedH3EdgeGraph::try_from(graph).unwrap();
    assert_eq!(prep_graph.count_edges().1, 1);
    prep_graph
}

#[test]
fn test_downsample() {
    let graph = line_graph();
    assert!(graph.num_edges() > 50);
    let downsampled_graph = downsample_graph(&graph, 5, |a: u64, b: u64| if a <= b { a } else { b }).unwrap();
    assert!(downsampled_graph.num_edges() > 0);
    assert!(downsampled_graph.num_edges() < 20);
}

#[test]
fn test_graph_nodes() {
    let res = Resolution::Eight;
    let origin = LatLng::try_from(Coord::from((23.3, 12.3))).unwrap().to_cell(res);
    let edges: Vec<_> = origin.edges().map(|e| (e, e.destination())).collect();

    let mut graph = H3EdgeGraph::new(8);
    graph.add_edge(edge(edges[0].0), 1);
    graph.add_edge(edge(edges[1].0), 1);

    let edges2: Vec<_> = edges[1].1.edges().map(|e| (e, e.destination())).collect();
    graph.add_edge(edge(edges2[0].0), 1);

    let nodes: NodeTypeMap = graph.nodes();
    assert_eq!(nodes.num_nodes(), 4);
    assert_eq!(nodes.node_type(&cell(origin)), Some(NodeType::Origin));
    assert_eq!(nodes.node_type(&cell(edges[0].1)), Some(NodeType::Destination));
    assert_eq!(nodes.node_type(&cell(edges[1].1)), Some(NodeType::OriginAndDestination));
    assert_eq!(nodes.node_type(&cell(edges2[0].1)), Some(NodeType::Destination));
    assert_eq!(graph.num_nodes(), 4);
}

#[test]
fn test_iter_edges() {
    let graph = build_line_prepared_graph();
    assert!(graph.iter_edges().len() > 50);
}

#[test]
fn test_iter_non_overlapping_edges() {
    let graph = build_line_prepared_graph();
    assert_eq!(graph.iter_edges_non_overlapping().unwrap().len(), 1);
}

#[test]
fn add_edge_keeps_lower_weight() {
    let origin = LatLng::new(12.3, 23.3).unwrap().to_cell(Resolution::Eight);
    let e = edge(origin.edges().next().unwrap());
    let mut graph = H3EdgeGraph::new(8);
    graph.add_edge(e, 10);
    assert_eq!(graph.edge_weight(e), Some(10));
    graph.add_edge(e, 30);
    assert_eq!(graph.edge_weight(e), Some(10));
    graph.add_edge(e, 5);
    assert_eq!(graph.edge_weight(e), Some(5));
    assert_eq!(graph.num_edges(), 1);
}

#[test]
fn add_edge_order_does_not_matter() {
    let origin = LatLng::new(12.3, 23.3).unwrap().to_cell(Resolution::Eight);
    let es: Vec<DirectedEdgeIndex> = origin.edges().map(edge).collect();
    let mut a = H3EdgeGraph::new(8);
    a.add_edge(es[0], 7);
    a.add_edge(es[1], 3);
    a.add_edge(es[0], 4);
    let mut b = H3EdgeGraph::new(8);
    b.add_edge(es[0], 4);
    b.add_edge(es[1], 3);
    b.add_edge(es[0], 7);
    for e in &es {
        assert_eq!(a.edge_weight(*e), b.edge_weight(*e));
    }
    assert_eq!(a.edge_weight(es[0]), Some(4));
}

#[test]
fn try_add_merges_with_minimum() {
    let origin = LatLng::new(12.3, 23.3).unwrap().to_cell(Resolution::Eight);
    let es: Vec<DirectedEdgeIndex> = origin.edges().map(edge).collect();
    let mut a = H3EdgeGraph::new(8);
    a.add_edge(es[0], 7);
    a.add_edge(es[1], 3);
    let mut b = H3EdgeGraph::new(8);
    b.add_edge(es[0], 4);
    b.add_edge(es[2], 9);
    assert_eq!(a.try_add(b), Ok(()));
    assert_eq!(a.num_edges(), 3);
    assert_eq!(a.edge_weight(es[0]), Some(4));
    assert_eq!(a.edge_weight(es[1]), Some(3));
    assert_eq!(a.edge_weight(es[2]), Some(9));
}

#[test]
fn try_add_refuses_mixed_resolutions() {
    let mut a = H3EdgeGraph::new(8);
    let b = H3EdgeGraph::new(7);
    assert_eq!(a.try_add(b), Err(Error::MixedH3Resolutions(8, 7)));
}

#[test]
fn downsample_refuses_higher_resolution() {
    let graph = line_graph();
    assert_eq!(
        downsample_graph(&graph, 8, |a: u64, _b: u64| a).err(),
        Some(Error::TooHighH3Resolution(8))
    );
    assert!(matches!(
        try_downsample_graph(&graph, 9, |a: u64, _b: u64| a),
        Some(Err(Error::TooHighH3Resolution(9)))
    ));
    let downsampled = try_downsample_graph(&graph, 6, |a: u64, _b: u64| a).unwrap().unwrap();
    assert_eq!(downsampled.num_edges() > 0, true);
}

#[test]
fn prepared_graph_roundtrip_keeps_edges() {
    let graph = line_graph();
    let edges: Vec<(DirectedEdgeIndex, u64)> = graph.iter_edges();
    let prepared = PreparedH3EdgeGraph::try_from(graph).unwrap();
    let back = prepared.to_h3edge_graph();
    assert_eq!(back.num_edges(), edges.len());
    for (e, w) in edges {
        assert_eq!(back.edge_weight(e), Some(w));
    }
}

#[test]
fn prepared_graph_refuses_short_fastforwards() {
    let graph = line_graph();
    assert_eq!(
        PreparedH3EdgeGraph::from_h3edge_graph(graph, 2).err(),
        Some(Error::TooShortLongEdge(2))
    );
}

#[test]
fn prepared_graph_edges_occur_once() {
    let graph = build_line_prepared_graph();
    let mut seen: Vec<u64> = graph.iter_edges().iter().map(|(e, _)| e.to_u64()).collect();
    let n = seen.len();
    seen.sort_unstable();
    seen.dedup();
    assert_eq!(seen.len(), n);
}

#[test]
fn builder_adds_ways_in_both_directions() {
    let cells: Vec<CellIndex> = line_cells(vec![(23.3, 12.3), (23.32, 12.3)], Resolution::Eight)
        .into_iter()
        .map(cell)
        .collect();
    let edges = continuous_cells_to_edges(&cells);
    assert!(edges.len() >= 2);
    let mut builder = OsmPbfH3EdgeGraphBuilder::new(8);
    let two_way: Vec<EdgeProperties> =
        edges.iter().map(|_| EdgeProperties { is_bidirectional: true, weight: 5 }).collect();
    assert!(builder.try_add_way_edges(&edges, &two_way));
    assert!(!builder.try_add_way_edges(&edges, &two_way[1..].to_vec()));
    let one_way: Vec<EdgeProperties> =
        edges.iter().map(|_| EdgeProperties { is_bidirectional: false, weight: 3 }).collect();
    builder.add_way_edges(&edges, &one_way);
    let graph = builder.build_graph().unwrap();
    assert_eq!(graph.num_edges(), 2 * edges.len());
    for e in &edges {
        assert_eq!(graph.edge_weight(*e), Some(3));
        assert_eq!(graph.edge_weight(reverse_directed_edge(*e)), Some(5));
    }
}

#[test]
fn downsample_folds_weights_of_contributing_edges() {
    let graph = line_graph();
    let target = Resolution::Five;
    let mut expected: std::collections::HashMap<u64, u64> = std::collections::HashMap::new();
    for (e, w) in graph.iter_edges() {
        let e = h3o::DirectedEdgeIndex::try_from(e.to_u64()).unwrap();
        let po = e.origin().parent(target).unwrap();
        let pd = e.destination().parent(target).unwrap();
        if po != pd {
            let d = u64::from(po.edge(pd).unwrap());
            *expected.entry(d).or_insert(0) += w;
        }
    }
    let summed = downsample_graph(&graph, 5, |a: u64, b: u64| a + b).unwrap();
    assert_eq!(summed.num_edges(), expected.len());
    for (d, w) in summed.iter_edges() {
        assert_eq!(expected.get(&d.to_u64()), Some(&w));
    }
}

#[test]
fn try_reverse_gives_the_way_back() {
    let c = h3o::CellIndex::try_from(0x89283080ddbffff_u64).unwrap();
    let e = c.edges().next().unwrap();
    let back = try_reverse_directed_edge(edge(e)).unwrap();
    assert_eq!(back.to_u64(), u64::from(e.destination().edge(c).unwrap()));
    assert_eq!(back, reverse_directed_edge(edge(e)));
    for d in c.edges() {
        assert_ne!(edge(d).destination(), edge(d).origin());
    }
}
