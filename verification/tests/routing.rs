use hexigraph::h3::CellIndex;
use hexigraph::routing::analyzers::{CarAnalyzer, FootwayAnalyzer, FootwayProperties};
use hexigraph::routing::api::{dataframe_parts, stream_dataframe_parts, ShortestPathOptions};
use hexigraph::routing::columns::prefix_column_names;
use hexigraph::routing::config::{
    default_graphs_prefix, default_outputs_prefix, routing_mode_index, GraphsConfig, ObjectStoreConfig, OutputsConfig,
};
use hexigraph::routing::error::Error;
use hexigraph::routing::format::FileFormat;
use hexigraph::routing::key::{GraphHandleError, GraphKey};
use hexigraph::routing::maxspeed::{infer_maxspeed, MaxSpeed, SpeedUnit};
use hexigraph::routing::selection::{
    destination_cells, loaded_selection_cells, plan_cell_selection, prerouting_decision, selection_cells, FetchOutcome,
    PreroutingDecision,
};
use hexigraph::routing::statistics::{disturbance_statistics, ExclusionDiff};
use hexigraph::routing::storage::{dataset_files, validate_datasets, DataframeDataset, GraphFetcher};
use hexigraph::routing::tags::{infer_sidewalk, str_to_bool, SideWalk};

fn tags(pairs: &[(&str, &str)]) -> Vec<(String, String)> {
    pairs.iter().map(|(k, v)| (k.to_string(), v.to_string())).collect()
}

fn kmh(digits: &str) -> MaxSpeed {
    MaxSpeed::Limited(digits.to_string(), SpeedUnit::KilometersPerHour)
}

#[test]
fn fileformat_from_filename() {
    assert_eq!(FileFormat::from_filename("/foo/bar.arrow").unwrap(), FileFormat::ArrowIPC);
    assert_eq!(FileFormat::from_filename("/foo/bar.parquet").unwrap(), FileFormat::Parquet);
    assert!(FileFormat::from_filename("/foo/bar.tiff").is_err());
    assert!(FileFormat::from_filename("/foo/bar").is_err());
}

#[test]
fn fileformat_error_names_the_file() {
    assert_eq!(
        FileFormat::from_filename("/foo/bar.tiff"),
        Err(Error::UnidentifiedFileFormat("/foo/bar.tiff".to_string()))
    );
    assert_eq!(FileFormat::from_filename(" /foo/BAR.ARROW ").unwrap(), FileFormat::ArrowIPC);
    assert_eq!(FileFormat::from_filename("/foo/bar.pq").unwrap(), FileFormat::Parquet);
}

#[test]
fn graph_regex() {
    assert_eq!(
        GraphKey::from_str("somegraph_7.ipc").unwrap(),
        GraphKey::new("somegraph".to_string(), 7).unwrap()
    );
}

#[test]
fn graph_key_roundtrip() {
    for (name, res) in [("somegraph", 7u8), ("a_1", 2), ("x-y", 12), ("g", 0), ("g_9", 15)] {
        let key = GraphKey::new(name.to_string(), res).unwrap();
        assert_eq!(GraphKey::from_str(key.to_string().as_str()), Ok(key.clone()));
        assert_eq!(GraphKey::try_from_handle(Some(key.to_handle())), Ok(key));
    }
}

#[test]
fn graph_key_refusals() {
    assert_eq!(GraphKey::from_str("somegraph_16.ipc"), Err(Error::NotAGraphKey));
    assert_eq!(GraphKey::from_str("somegraph_7.parquet"), Err(Error::NotAGraphKey));
    assert_eq!(GraphKey::from_str("_7.ipc"), Err(Error::NotAGraphKey));
    assert_eq!(GraphKey::from_str("somegraph7.ipc"), Err(Error::NotAGraphKey));
    assert_eq!(
        GraphKey::from_str("graphs/somegraph_12.ipc").unwrap(),
        GraphKey::new("somegraph".to_string(), 12).unwrap()
    );
    assert_eq!(GraphKey::to_string(&GraphKey::new("g".to_string(), 10).unwrap()), "g_10.ipc");
}

#[test]
fn graph_handle_refusals() {
    assert_eq!(GraphKey::try_from_handle(None), Err(GraphHandleError::NotSet));
    assert_eq!(GraphKey::try_from_handle(Some((String::new(), 7))), Err(GraphHandleError::EmptyName));
    assert_eq!(
        GraphKey::try_from_handle(Some(("g".to_string(), 16))),
        Err(GraphHandleError::InvalidH3Resolution)
    );
    assert_eq!(
        GraphKey::try_from_handle(Some(("g".to_string(), 263))),
        Err(GraphHandleError::InvalidH3Resolution)
    );
}

#[test]
fn test_parse_maxspeed() {
    assert_eq!(MaxSpeed::from_str("50"), kmh("50"));
    assert_eq!(MaxSpeed::from_str("DE:zone:51"), kmh("51"));
    assert_eq!(MaxSpeed::from_str("50 kmh"), kmh("50"));
    assert_eq!(MaxSpeed::from_str("3kmh"), kmh("3"));
    assert_eq!(MaxSpeed::from_str("none"), MaxSpeed::Unlimited);
    assert_eq!(MaxSpeed::from_str("DE:urban"), kmh("50"));
    assert_eq!(MaxSpeed::from_str("DE:33"), kmh("33"));
    assert_eq!(MaxSpeed::from_str("DE:zone:31"), kmh("31"));
    assert_eq!(MaxSpeed::from_str("DE:zone31"), kmh("31"));
    assert_eq!(
        MaxSpeed::from_str("5 knots"),
        MaxSpeed::Limited("5".to_string(), SpeedUnit::Knots)
    );
    match MaxSpeed::from_str("20 mph") {
        MaxSpeed::Limited(digits, SpeedUnit::MilesPerHour) => {
            let kmh = digits.parse::<f32>().unwrap() * 1.609_344_f32;
            assert_eq!(kmh.floor(), 32.0);
        }
        other => panic!("unexpected {:?}", other),
    }
    assert_eq!(MaxSpeed::from_str("walk"), kmh("5"));
}

#[test]
fn maxspeed_unknown_values() {
    assert_eq!(MaxSpeed::from_str(""), MaxSpeed::Unknown);
    assert_eq!(MaxSpeed::from_str("fast"), MaxSpeed::Unknown);
}

#[test]
fn maxspeed_from_tags_and_class() {
    assert_eq!(infer_maxspeed(&tags(&[("maxspeed", "70")]), "primary"), kmh("70"));
    assert_eq!(infer_maxspeed(&tags(&[]), "residential"), kmh("30"));
    assert_eq!(infer_maxspeed(&tags(&[]), "motorway"), kmh("120"));
    assert_eq!(infer_maxspeed(&tags(&[]), "cycleway"), MaxSpeed::Unknown);
}

#[test]
fn str_to_bool_values() {
    assert_eq!(str_to_bool("yes"), Some(true));
    assert_eq!(str_to_bool("y"), Some(true));
    assert_eq!(str_to_bool("true"), Some(true));
    assert_eq!(str_to_bool("no"), Some(false));
    assert_eq!(str_to_bool("n"), Some(false));
    assert_eq!(str_to_bool("false"), Some(false));
    assert_eq!(str_to_bool("maybe"), None);
}

#[test]
fn sidewalk_inference() {
    assert_eq!(infer_sidewalk(&tags(&[("highway", "residential")])), None);
    let both = infer_sidewalk(&tags(&[("sidewalk", "both")])).unwrap();
    assert!(both.on_left_side && both.on_right_side);
    assert!(!both.is_without_sidewalk());
    assert_eq!(infer_sidewalk(&tags(&[("sidewalk", "no")])), None);
    assert!(SideWalk::default().is_without_sidewalk());
    let bikes = infer_sidewalk(&tags(&[("sidewalk", "right"), ("sidewalk:right:bicycle", "yes")])).unwrap();
    assert_eq!(
        bikes,
        SideWalk {
            on_left_side: false,
            on_left_bicycles_allowed: false,
            on_right_side: true,
            on_right_bicycles_allowed: true,
        }
    );
    let left_bikes = infer_sidewalk(&tags(&[("sidewalk", "both"), ("sidewalk:left:bicycle", "yes")])).unwrap();
    assert!(left_bikes.on_left_bicycles_allowed && !left_bikes.on_right_bicycles_allowed);
    let both_bikes = infer_sidewalk(&tags(&[("sidewalk", "left"), ("sidewalk:both:bicycle", "yes")])).unwrap();
    assert!(both_bikes.on_left_bicycles_allowed && both_bikes.on_right_bicycles_allowed);
    let left = infer_sidewalk(&tags(&[("sidewalk", "left")])).unwrap();
    assert!(left.on_left_side && !left.on_right_side);
}

#[test]
fn car_analyzer_ratings() {
    let analyzer = CarAnalyzer {};
    let motorway = analyzer
        .analyze_way_tags(&tags(&[("highway", "motorway"), ("oneway", "yes")]))
        .unwrap()
        .unwrap();
    assert_eq!(motorway.edge_preference, 3);
    assert_eq!(motorway.speed_reduction_percent, 100);
    assert!(!motorway.is_bidirectional);
    let residential = analyzer
        .analyze_way_tags(&tags(&[("highway", "residential"), ("maxspeed", "30")]))
        .unwrap()
        .unwrap();
    assert_eq!(residential.max_speed, kmh("30"));
    assert!(residential.is_bidirectional);
    assert_eq!(analyzer.analyze_way_tags(&tags(&[("highway", "cycleway")])), Ok(None));
    assert_eq!(analyzer.analyze_way_tags(&tags(&[("name", "x")])), Ok(None));
}

#[test]
fn footway_analyzer_ratings() {
    let analyzer = FootwayAnalyzer {};
    assert_eq!(
        analyzer.analyze_way_tags(&tags(&[("highway", "footway")])),
        Ok(Some(FootwayProperties { edge_preference: 1 }))
    );
    assert_eq!(analyzer.analyze_way_tags(&tags(&[("highway", "motorway")])), Ok(None));
    assert_eq!(
        analyzer.analyze_way_tags(&tags(&[("highway", "primary"), ("sidewalk", "both")])),
        Ok(Some(FootwayProperties { edge_preference: 10 }))
    );
    assert_eq!(
        analyzer.analyze_way_tags(&tags(&[("highway", "residential")])),
        Ok(Some(FootwayProperties { edge_preference: 2 }))
    );
}

#[test]
fn config_defaults() {
    assert_eq!(default_graphs_prefix(), "graphs/");
    assert_eq!(default_outputs_prefix(), "outputs/");
    assert_eq!(GraphsConfig { prefix: default_graphs_prefix(), cache_size: None }.cache_capacity(), 10);
    assert_eq!(GraphsConfig { prefix: default_graphs_prefix(), cache_size: Some(3) }.cache_capacity(), 3);
    assert_eq!(OutputsConfig { prefix: default_outputs_prefix() }.output_key("abc"), "outputs/abc");
    assert!(!ObjectStoreConfig::Filesystem { root: "/tmp".to_string() }.allows_http());
}

#[test]
fn graph_fetcher_locations() {
    let fetcher = GraphFetcher { prefix: "graphs".to_string() };
    assert_eq!(fetcher.prefix(), "graphs/");
    let key = GraphKey::new("somegraph".to_string(), 7).unwrap();
    assert_eq!(fetcher.graph_location(&key), "graphs/somegraph_7.ipc");
    assert_eq!(GraphFetcher { prefix: String::new() }.prefix(), "");
}

#[test]
fn dataset_paths() {
    let dataset = DataframeDataset {
        key_pattern: "data/{data_h3_resolution}/{file_h3_resolution}/{h3cell}.parquet".to_string(),
        resolutions: std::collections::HashMap::from([(10, 5)]),
        h3index_column_name: "h3index".to_string(),
    };
    assert_eq!(dataset.fileformat(), Ok(FileFormat::Parquet));
    assert_eq!(dataset.validate(), Ok(()));
    assert_eq!(dataset.file_h3_resolution(10), Ok(5));
    assert_eq!(dataset.file_h3_resolution(9), Err(Error::UnsupportedH3Resolution(9)));
    let cell = CellIndex::try_from_u64(0x85283473fffffff).unwrap();
    assert_eq!(
        dataset.build_dataset_path(cell, 10),
        Ok("data/10/5/85283473fffffff.parquet".to_string())
    );
    let broken = DataframeDataset {
        key_pattern: "data/{h3cell}.tiff".to_string(),
        resolutions: std::collections::HashMap::new(),
        h3index_column_name: "h3index".to_string(),
    };
    assert_eq!(broken.validate(), Err(Error::UnidentifiedFileFormat("data/{h3cell}.tiff".to_string())));
}

#[test]
fn shortest_path_options() {
    let unset = ShortestPathOptions { num_gap_cells_to_graph: 2, num_destinations_to_reach: 0 };
    assert_eq!(unset.num_destinations_to_reach(), None);
    assert_eq!(unset.max_distance_to_graph(), 2);
    let set = ShortestPathOptions { num_gap_cells_to_graph: 0, num_destinations_to_reach: 3 };
    assert_eq!(set.num_destinations_to_reach(), Some(3));
}

#[test]
fn graph_keys_from_listed_locations() {
    let fetcher = GraphFetcher { prefix: "graphs".to_string() };
    let locations = vec![
        "graphs/somegraph_7.ipc".to_string(),
        "graphs/readme.txt".to_string(),
        "graphs/other_12.ipc".to_string(),
        "graphs/toofine_16.ipc".to_string(),
    ];
    assert_eq!(
        fetcher.keys_from_locations(&locations),
        vec![
            GraphKey::new("somegraph".to_string(), 7).unwrap(),
            GraphKey::new("other".to_string(), 12).unwrap(),
        ]
    );
    let unprefixed = GraphFetcher { prefix: String::new() };
    assert_eq!(
        unprefixed.keys_from_locations(&vec!["g_3.ipc".to_string()]),
        vec![GraphKey::new("g".to_string(), 3).unwrap()]
    );
}

#[test]
fn disturbance_statistics_per_origin() {
    let path = |edge: u64, cost: u64| {
        hexigraph::algorithm::path::Path::try_from(
            hexigraph::algorithm::path::DirectedEdgePath::DirectedEdgeSequence(vec![
                hexigraph::h3::DirectedEdgeIndex::try_from_u64(edge).unwrap(),
            ]),
            cost,
        )
        .unwrap()
    };
    let p1 = path(0x1176b49474ffffff, 1);
    let p2 = path(0x1476b49474ffffff, 3);
    let origin = CellIndex::try_from_u64(0x8a1fb46622dffff).unwrap();
    let diffs = vec![(
        origin,
        ExclusionDiff { before_cell_exclusion: vec![p1.clone(), p2.clone()], after_cell_exclusion: vec![p2.clone()] },
    )];
    let stats = disturbance_statistics(&diffs);
    assert_eq!(stats.len(), 1);
    assert_eq!(stats[0].h3index_origin, 0x8a1fb46622dffff);
    assert_eq!(stats[0].num_reached_without_disturbance, 2);
    assert_eq!(stats[0].num_reached_with_disturbance, 1);
    assert_eq!(stats[0].preferred_dest_h3index_without_disturbance, Some(p1.destination_cell.to_u64()));
    assert_eq!(stats[0].preferred_dest_h3index_with_disturbance, Some(p2.destination_cell.to_u64()));
    let empty = disturbance_statistics(&vec![(
        origin,
        ExclusionDiff { before_cell_exclusion: vec![], after_cell_exclusion: vec![] },
    )]);
    assert_eq!(empty[0].preferred_dest_h3index_with_disturbance, None);
    assert_eq!(empty[0].num_reached_with_disturbance, 0);
}

#[test]
fn selection_cells_of_request() {
    let c = CellIndex::try_from_u64(0x8a1fb46622dffff).unwrap();
    let parent = c.parent(8).unwrap();
    let cells = selection_cells(&vec![0x8a1fb46622dffff, 12345, 0x8a1fb46622dffff], 8);
    assert_eq!(cells, vec![parent]);
    assert!(selection_cells(&vec![1, 2, 3], 8).is_empty());
}

#[test]
fn dataframe_parts_cover_all_rows() {
    assert_eq!(dataframe_parts(7, 3), vec![(0, 3), (3, 3), (6, 1)]);
    assert_eq!(dataframe_parts(6, 3), vec![(0, 3), (3, 3)]);
    assert!(dataframe_parts(0, 3).is_empty());
    assert_eq!(dataframe_parts(2, 5), vec![(0, 2)]);
    let parts = stream_dataframe_parts(7001);
    assert_eq!(parts, vec![(0, 3000), (3000, 3000), (6000, 1001)]);
    assert_eq!(parts.iter().map(|p| p.1).sum::<usize>(), 7001);
}

#[test]
fn column_prefixes_longest_first() {
    let names: Vec<String> = ["a", "pa", "bb", "c"].iter().map(|s| s.to_string()).collect();
    let renames = prefix_column_names(&names, "p");
    let expected: Vec<(String, String)> = [("bb", "pbb"), ("pa", "ppa"), ("c", "pc"), ("a", "pa")]
        .iter()
        .map(|(a, b)| (a.to_string(), b.to_string()))
        .collect();
    assert_eq!(renames, expected);
    // applying the renames one after the other never produces a duplicate name
    let mut current = names.clone();
    for (old, new) in &renames {
        assert!(!current.contains(new));
        let pos = current.iter().position(|c| c == old).unwrap();
        current[pos] = new.clone();
    }
    assert!(prefix_column_names(&vec![], "x").is_empty());
}

#[test]
fn datasets_validated_in_order() {
    let dataset = |pattern: &str| DataframeDataset {
        key_pattern: pattern.to_string(),
        resolutions: std::collections::HashMap::from([(10, 5)]),
        h3index_column_name: "h3index".to_string(),
    };
    assert_eq!(validate_datasets(&vec![dataset("a/{h3cell}.parquet"), dataset("b/{h3cell}.arrow")]), Ok(()));
    assert_eq!(
        validate_datasets(&vec![dataset("a/{h3cell}.parquet"), dataset("b.csv"), dataset("c.tiff")]),
        Err(Error::UnidentifiedFileFormat("b.csv".to_string()))
    );
    assert_eq!(validate_datasets(&vec![]), Ok(()));
}

#[test]
fn maxspeed_from_lowered_text() {
    assert_eq!(MaxSpeed::from_str_lowered("DE:urban", "de:urban"), kmh("50"));
    assert_eq!(MaxSpeed::from_str_lowered("DE:urban", "DE:urban"), MaxSpeed::Unknown);
    assert_eq!(MaxSpeed::from_str_lowered("30 mph", "30 mph"), MaxSpeed::Limited("30".to_string(), SpeedUnit::MilesPerHour));
    assert_eq!(MaxSpeed::from_str_lowered(" None ", " none "), MaxSpeed::Unlimited);
}

#[test]
fn graph_key_resolution_bound() {
    assert!(GraphKey::new("g".to_string(), 16).is_none());
    assert!(GraphKey::new("g".to_string(), 255).is_none());
    let key = GraphKey::new("g".to_string(), 15).unwrap();
    assert_eq!(key.name(), "g");
    assert_eq!(key.h3_resolution(), 15);
    assert_eq!(key.clone(), key);
}

#[test]
fn prerouting_decisions() {
    assert_eq!(prerouting_decision(10, &vec![]), PreroutingDecision::TryNext);
    assert_eq!(prerouting_decision(10, &vec![FetchOutcome::Found]), PreroutingDecision::UseResolution(9));
    assert_eq!(prerouting_decision(10, &vec![FetchOutcome::NotFound, FetchOutcome::Found]), PreroutingDecision::UseResolution(8));
    assert_eq!(prerouting_decision(10, &vec![FetchOutcome::NotFound, FetchOutcome::Failed]), PreroutingDecision::FetchFailed);
    assert_eq!(prerouting_decision(10, &vec![FetchOutcome::NotFound, FetchOutcome::NotFound]), PreroutingDecision::TryNext);
    assert_eq!(
        prerouting_decision(10, &vec![FetchOutcome::NotFound, FetchOutcome::NotFound, FetchOutcome::NotFound, FetchOutcome::NotFound]),
        PreroutingDecision::NoSuitableGraph
    );
    assert_eq!(prerouting_decision(0, &vec![]), PreroutingDecision::NoSuitableGraph);
    assert_eq!(prerouting_decision(1, &vec![FetchOutcome::NotFound]), PreroutingDecision::NoSuitableGraph);
}

#[test]
fn cell_selection_plan() {
    assert!(plan_cell_selection(&None, 7).is_none());
    let c = CellIndex::try_from_u64(0x85283473fffffff).unwrap();
    let (cells, load) = plan_cell_selection(&Some((vec![c.to_u64(), 0], String::new())), 5).unwrap();
    assert_eq!(cells, vec![c]);
    assert!(!load);
    let (cells, load) = plan_cell_selection(&Some((vec![c.to_u64(), c.to_u64()], "ds".to_string())), 5).unwrap();
    assert_eq!(cells, vec![c]);
    assert!(load);
    let (cells, load) = plan_cell_selection(&Some((vec![0, 1], "ds".to_string())), 5).unwrap();
    assert!(cells.is_empty());
    assert!(!load);
}

#[test]
fn loaded_selection_keeps_cells_with_data() {
    let c = CellIndex::try_from_u64(0x85283473fffffff).unwrap();
    let mut cells = vec![c];
    loaded_selection_cells(&mut cells, None);
    assert!(cells.is_empty());
    let mut cells = vec![c];
    let contents: hexigraph::treemap::H3Treemap<CellIndex> = hexigraph::treemap::H3Treemap::from_indexes(&vec![c]);
    loaded_selection_cells(&mut cells, Some(&contents));
    assert_eq!(cells, vec![c]);
    let mut cells = vec![c];
    loaded_selection_cells(&mut cells, Some(&hexigraph::treemap::H3Treemap::new()));
    assert!(cells.is_empty());
}

#[test]
fn routing_mode_lookup() {
    let names = vec!["slow".to_string(), "fast".to_string(), "fast".to_string()];
    assert_eq!(routing_mode_index(&names, ""), Ok(None));
    assert_eq!(routing_mode_index(&names, "fast"), Ok(Some(1)));
    assert_eq!(routing_mode_index(&names, "slow"), Ok(Some(0)));
    assert_eq!(routing_mode_index(&names, "walk"), Err(Error::UnknownRoutingMode));
    assert_eq!(routing_mode_index(&vec![], "fast"), Err(Error::UnknownRoutingMode));
}

#[test]
fn destination_cells_sorted_once() {
    let a = CellIndex::try_from_u64(0x85283473fffffff).unwrap();
    let hc = h3o::CellIndex::try_from(a.to_u64()).unwrap();
    let other = hc.edges().next().unwrap().destination();
    let b = CellIndex::try_from_u64(u64::from(other)).unwrap();
    let (low, high) = if a.to_u64() < b.to_u64() { (a, b) } else { (b, a) };
    assert_eq!(destination_cells(&vec![high, low, high]), vec![low, high]);
    assert!(destination_cells(&vec![]).is_empty());
}

#[test]
fn maxspeed_and_sidewalk_of_upper_case_tags() {
    assert_eq!(MaxSpeed::from_str("DE:URBAN"), kmh("50"));
    assert_eq!(MaxSpeed::from_str("NONE"), MaxSpeed::Unlimited);
    let sw = infer_sidewalk(&tags(&[("SIDEWALK", "LEFT"), ("Sidewalk:Left:Bicycle", "YES")])).unwrap();
    assert!(sw.on_left_side && !sw.on_right_side && sw.on_left_bicycles_allowed);
}

#[test]
fn dataframe_part_count() {
    for (n, m) in [(0usize, 3usize), (1, 3), (3, 3), (4, 3), (3000, 3000), (7001, 3000)] {
        let parts = dataframe_parts(n, m);
        assert_eq!(parts.len(), (n + m - 1) / m);
        for (i, (start, len)) in parts.iter().enumerate() {
            assert_eq!(*start, i * m);
            assert_eq!(*len, m.min(n - i * m));
        }
    }
}

#[test]
fn dataset_files_of_a_file_resolution_above_fifteen() {
    let dataset = DataframeDataset {
        key_pattern: "data/{h3cell}.parquet".to_string(),
        resolutions: std::collections::HashMap::from([(10, 20)]),
        h3index_column_name: "h3index".to_string(),
    };
    let c = CellIndex::try_from_u64(0x85283473fffffff).unwrap();
    assert_eq!(dataset_files(&dataset, &vec![c], 10), Ok(Some((FileFormat::Parquet, vec![]))));
    assert_eq!(dataset_files(&dataset, &vec![], 10), Ok(None));
}

#[test]
fn maxspeed_pattern_values() {
    assert_eq!(MaxSpeed::from_str("signals"), MaxSpeed::Unknown);
    assert_eq!(MaxSpeed::from_str("0"), MaxSpeed::Unknown);
    assert_eq!(MaxSpeed::from_str("  "), MaxSpeed::Unknown);
    assert_eq!(MaxSpeed::from_str("60 foo"), kmh("60"));
    assert_eq!(MaxSpeed::from_str("60"), kmh("60"));
    assert_eq!(MaxSpeed::from_str("60 knots"), MaxSpeed::Limited("60".to_string(), SpeedUnit::Knots));
    assert_eq!(MaxSpeed::from_str("12 m/s"), MaxSpeed::Limited("12".to_string(), SpeedUnit::MetersPerSecond));
}

#[test]
fn fileformat_of_plain_names() {
    assert_eq!(FileFormat::from_filename("x.pq"), Ok(FileFormat::Parquet));
    assert_eq!(FileFormat::from_filename("dir/.arrow"), Err(Error::UnidentifiedFileFormat("dir/.arrow".to_string())));
    assert_eq!(FileFormat::from_filename("a.b/c"), Err(Error::UnidentifiedFileFormat("a.b/c".to_string())));
    assert_eq!(FileFormat::from_filename("a/b.tar.arrow"), Ok(FileFormat::ArrowIPC));
}
