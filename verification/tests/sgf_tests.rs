use mdgraph::error::GraphError;
use mdgraph::graph::MDGraph;
use mdgraph::index_type::NodeIndex;
use mdgraph::sgf::read_sgf;
use mdgraph::weight::{DecimalWeight, Unweighted};

fn load(input: &[u8]) -> Result<MDGraph<Unweighted, Unweighted, u32, u32>, GraphError> {
    read_sgf::<Unweighted, Unweighted, u32, u32>(input)
}

fn load_weighted(input: &[u8]) -> Result<MDGraph<DecimalWeight, DecimalWeight, u32, u32>, GraphError> {
    read_sgf::<DecimalWeight, DecimalWeight, u32, u32>(input)
}

#[test]
fn weighted_graph_loads_with_exact_weights() {
    let g = load_weighted(b"d 3 2\n0|1:2.0,2:3.0\n1|\n2|\n").unwrap();
    assert_eq!(g.node_count(), 3);
    assert_eq!(g.edge_count(), 2);
    assert_eq!(
        g.get_edge_weight(mdgraph::index_type::EdgeIndex::new(0)).unwrap(),
        DecimalWeight::from_millis(2000)
    );
    assert_eq!(
        g.get_edge_weight(mdgraph::index_type::EdgeIndex::new(1)).unwrap(),
        DecimalWeight::from_millis(3000)
    );
    let n0: NodeIndex<u32> = NodeIndex::new(0);
    let n1: NodeIndex<u32> = NodeIndex::new(1);
    let n2: NodeIndex<u32> = NodeIndex::new(2);
    assert!(g.has_directed_edge(n0, n1));
    assert!(g.has_directed_edge(n0, n2));
    let targets: Vec<usize> = g.out_edges_of(n0).iter().map(|p| p.0.index()).collect();
    assert!(targets.contains(&1));
    assert!(targets.contains(&2));
}

#[test]
fn declared_edges_must_be_realized() {
    let r = load(b"d 2 1\n0|\n1|\n");
    assert!(matches!(r, Err(GraphError::CountMismatch)));
}

#[test]
fn node_id_beyond_declared_count_is_rejected() {
    let r = load(b"d 2 2\n0|5\n1|\n");
    assert!(matches!(r, Err(GraphError::IndexOutOfBounds)));
    let r2 = load(b"d 2 0\n5|\n");
    assert!(matches!(r2, Err(GraphError::IndexOutOfBounds)));
}

#[test]
fn malformed_header_is_rejected() {
    let r = load(b"x 3 2\n0|1\n");
    assert!(matches!(r, Err(GraphError::HeaderMalformed)));
}

#[test]
fn unsupported_direction_code_is_rejected() {
    let r = load(b"u 1 0\n0|\n");
    assert!(matches!(r, Err(GraphError::HeaderMalformed)));
}

#[test]
fn missing_or_short_header_is_rejected() {
    assert!(matches!(load(b""), Err(GraphError::HeaderMalformed)));
    assert!(matches!(load(b"# only a comment\n"), Err(GraphError::HeaderMalformed)));
    assert!(matches!(load(b"d 3\n"), Err(GraphError::HeaderMalformed)));
    assert!(matches!(load(b"d\n"), Err(GraphError::HeaderMalformed)));
    assert!(matches!(load(b"d x 2\n"), Err(GraphError::HeaderMalformed)));
    assert!(matches!(load(b"d 3 y\n"), Err(GraphError::HeaderMalformed)));
}

#[test]
fn comments_and_surrounding_whitespace_are_ignored() {
    let g = load(b"# a comment\n  d 2 1  \n# another\n 0|1 \n1|\n").unwrap();
    assert_eq!(g.node_count(), 2);
    assert_eq!(g.edge_count(), 1);
    let n0: NodeIndex<u32> = NodeIndex::new(0);
    let n1: NodeIndex<u32> = NodeIndex::new(1);
    assert!(g.has_directed_edge(n0, n1));
}

#[test]
fn header_with_extra_tokens_is_accepted() {
    let g = load(b"d 1 0 trailing tokens\n0|\n").unwrap();
    assert_eq!(g.node_count(), 1);
}

#[test]
fn empty_edge_lists_add_no_edges() {
    let g = load(b"d 2 0\n0|\n1|\n").unwrap();
    assert_eq!(g.edge_count(), 0);
}

#[test]
fn missing_separator_is_rejected() {
    let r = load(b"d 1 0\n0\n");
    assert!(matches!(r, Err(GraphError::BodyLineMalformed)));
    let r2 = load(b"d 2 1\n0|1,\n1|\n");
    assert!(matches!(r2, Err(GraphError::BodyLineMalformed)));
    let r3 = load(b"d 1 0\nq|\n");
    assert!(matches!(r3, Err(GraphError::BodyLineMalformed)));
}

#[test]
fn bad_weight_tokens_are_rejected() {
    let r = load_weighted(b"d 1 1\n0|0:abc\n");
    assert!(matches!(r, Err(GraphError::WeightParseError)));
    let r2 = load_weighted(b"d 1 0\n0:zz|\n");
    assert!(matches!(r2, Err(GraphError::WeightParseError)));
    let r3 = load(b"d 1 1\n0|0:1.5\n");
    assert!(matches!(r3, Err(GraphError::WeightParseError)));
}

#[test]
fn node_weight_token_overwrites_default() {
    let g = load_weighted(b"d 2 0\n0:1.5|\n1|\n").unwrap();
    let n0: NodeIndex<u32> = NodeIndex::new(0);
    let n1: NodeIndex<u32> = NodeIndex::new(1);
    assert_eq!(g.get_node_weight(n0).unwrap(), DecimalWeight::from_millis(1500));
    assert_eq!(g.get_node_weight(n1).unwrap(), DecimalWeight::from_millis(0));
}

#[test]
fn narrow_index_width_fails_on_large_header() {
    let r = read_sgf::<Unweighted, Unweighted, u8, u8>(b"d 300 0\n");
    assert!(matches!(r, Err(GraphError::CapacityExceeded)));
    let ok = read_sgf::<Unweighted, Unweighted, u8, u8>(b"d 256 0\n");
    assert!(ok.is_ok());
}

#[test]
fn self_loops_and_parallel_edges_load() {
    let g = load(b"d 2 3\n0|0,1,1\n1|\n").unwrap();
    assert_eq!(g.edge_count(), 3);
    let n0: NodeIndex<u32> = NodeIndex::new(0);
    let n1: NodeIndex<u32> = NodeIndex::new(1);
    assert!(g.has_directed_edge(n0, n0));
    assert_eq!(g.out_degree(n0), 3);
    assert_eq!(g.in_degree(n1), 2);
}

#[test]
fn input_without_trailing_newline_loads() {
    let g = load(b"d 1 1\n0|0").unwrap();
    assert_eq!(g.edge_count(), 1);
}

#[test]
fn declared_node_count_must_cover_all_lines() {
    let r = load(b"d 1 2\n0|0\n");
    assert!(matches!(r, Err(GraphError::CountMismatch)));
}
