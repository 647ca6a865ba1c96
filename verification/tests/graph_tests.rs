use mdgraph::error::GraphError;
use mdgraph::graph::MDGraph;
use mdgraph::index_type::{EdgeIndex, IndexType, NodeIndex};
use mdgraph::weight::{DecimalWeight, Unweighted, WeightType};

type G = MDGraph<Unweighted, Unweighted, u32, u32>;
type WG = MDGraph<DecimalWeight, DecimalWeight, u32, u32>;

#[test]
fn counts_follow_insertions() {
    let mut g: G = MDGraph::new();
    assert_eq!(g.node_count(), 0);
    assert_eq!(g.edge_count(), 0);
    let a = g.add_node().unwrap();
    let b = g.add_node().unwrap();
    assert_eq!(g.node_count(), 2);
    assert_eq!(a.index(), 0);
    assert_eq!(b.index(), 1);
    let e = g.add_edge(a, b).unwrap();
    assert_eq!(e.index(), 0);
    assert_eq!(g.edge_count(), 1);
    assert_eq!(g.node_count(), 2);
}

#[test]
fn add_nodes_returns_inclusive_pair() {
    let mut g: G = MDGraph::new();
    let _ = g.add_node().unwrap();
    let (first, last) = g.add_nodes(3).unwrap();
    assert_eq!(first.index(), 1);
    assert_eq!(last.index(), 3);
    assert_eq!(g.node_count(), 4);
}

#[test]
fn edge_appears_in_both_adjacency_lists() {
    let mut g: G = MDGraph::new();
    let a = g.add_node().unwrap();
    let b = g.add_node().unwrap();
    let e = g.add_edge(a, b).unwrap();
    let outs = g.out_edges_of(a);
    assert_eq!(outs.len(), 1);
    assert_eq!(outs[0].0.index(), b.index());
    assert_eq!(outs[0].1.index(), e.index());
    let ins = g.in_edges_of(b);
    assert_eq!(ins.len(), 1);
    assert_eq!(ins[0].0.index(), a.index());
    assert_eq!(ins[0].1.index(), e.index());
    assert_eq!(g.out_edges_of(b).len(), 0);
    assert_eq!(g.in_edges_of(a).len(), 0);
}

#[test]
fn degrees_match_adjacency_lengths() {
    let mut g: G = MDGraph::new();
    let a = g.add_node().unwrap();
    let b = g.add_node().unwrap();
    let c = g.add_node().unwrap();
    let _ = g.add_edge(a, b).unwrap();
    let _ = g.add_edge(a, c).unwrap();
    let _ = g.add_edge(b, a).unwrap();
    assert_eq!(g.out_degree(a), g.out_edges_of(a).len());
    assert_eq!(g.in_degree(a), g.in_edges_of(a).len());
    assert_eq!(g.degree(a), g.in_degree(a) + g.out_degree(a));
    assert_eq!(g.out_degree(a), 2);
    assert_eq!(g.in_degree(a), 1);
    assert_eq!(g.degree(a), 3);
}

#[test]
fn has_directed_edge_agrees_with_both_scans() {
    let mut g: G = MDGraph::new();
    let a = g.add_node().unwrap();
    let b = g.add_node().unwrap();
    let c = g.add_node().unwrap();
    let _ = g.add_edge(a, b).unwrap();
    assert!(g.has_out_edge(a, b));
    assert!(g.has_in_edge(b, a));
    assert!(g.has_directed_edge(a, b));
    assert!(!g.has_directed_edge(b, a));
    assert!(!g.has_directed_edge(a, c));
    assert!(!g.has_out_edge(b, a));
    assert!(!g.has_in_edge(a, b));
}

#[test]
fn self_loop_counts_once_in_each_direction() {
    let mut g: G = MDGraph::new();
    let a = g.add_node().unwrap();
    assert_eq!(g.in_degree(a), 0);
    assert_eq!(g.out_degree(a), 0);
    let e = g.add_edge(a, a).unwrap();
    assert_eq!(g.in_degree(a), 1);
    assert_eq!(g.out_degree(a), 1);
    assert_eq!(g.degree(a), 2);
    let outs = g.out_edges_of(a);
    assert_eq!(outs[0].0.index(), a.index());
    assert_eq!(outs[0].1.index(), e.index());
    let ins = g.in_edges_of(a);
    assert_eq!(ins[0].0.index(), a.index());
    assert_eq!(ins[0].1.index(), e.index());
    assert!(g.has_directed_edge(a, a));
}

#[test]
fn parallel_edges_keep_their_own_weights() {
    let mut g: WG = MDGraph::new();
    let a = g.add_node().unwrap();
    let b = g.add_node().unwrap();
    let w1 = DecimalWeight::from_millis(1500);
    let w2 = DecimalWeight::from_millis(2750);
    let e1 = g.add_edge_with_weight(a, b, w1).unwrap();
    let e2 = g.add_edge_with_weight(a, b, w2).unwrap();
    assert_ne!(e1.index(), e2.index());
    assert_eq!(g.get_edge_weight(e1).unwrap(), w1);
    assert_eq!(g.get_edge_weight(e2).unwrap(), w2);
    assert_eq!(g.out_degree(a), 2);
}

#[test]
fn node_weights_default_and_overwrite() {
    let mut g: WG = MDGraph::new();
    let a = g.add_node().unwrap();
    assert_eq!(g.get_node_weight(a).unwrap(), DecimalWeight::from_millis(0));
    let b = g.add_node_with_weight(DecimalWeight::from_millis(42)).unwrap();
    assert_eq!(g.get_node_weight(b).unwrap(), DecimalWeight::from_millis(42));
    *g.get_node_weight_mut(a) = DecimalWeight::from_millis(7);
    assert_eq!(g.get_node_weight(a).unwrap(), DecimalWeight::from_millis(7));
}

#[test]
fn edge_weight_mut_overwrites() {
    let mut g: WG = MDGraph::new();
    let a = g.add_node().unwrap();
    let e = g.add_edge(a, a).unwrap();
    assert_eq!(g.get_edge_weight(e).unwrap(), DecimalWeight::from_millis(0));
    *g.get_edge_weight_mut(e) = DecimalWeight::from_millis(9000);
    assert_eq!(g.get_edge_weight(e).unwrap(), DecimalWeight::from_millis(9000));
}

#[test]
fn out_of_bounds_accesses_are_reported() {
    let mut g: G = MDGraph::new();
    let a = g.add_node().unwrap();
    let bogus: NodeIndex<u32> = NodeIndex::new(5);
    assert!(matches!(g.add_edge(a, bogus), Err(GraphError::IndexOutOfBounds)));
    assert!(matches!(g.add_edge(bogus, a), Err(GraphError::IndexOutOfBounds)));
    assert_eq!(g.edge_count(), 0);
    assert!(matches!(g.get_node_weight(bogus), Err(GraphError::IndexOutOfBounds)));
    let no_edge: EdgeIndex<u32> = EdgeIndex::new(0);
    assert!(matches!(g.get_edge_weight(no_edge), Err(GraphError::IndexOutOfBounds)));
}

#[test]
fn narrow_index_width_hits_capacity() {
    let mut g: MDGraph<Unweighted, Unweighted, u8, u32> = MDGraph::new();
    for _ in 0..256 {
        g.add_node().unwrap();
    }
    assert_eq!(g.node_count(), 256);
    assert!(matches!(g.add_node(), Err(GraphError::CapacityExceeded)));
    assert_eq!(g.node_count(), 256);
    let mut h: MDGraph<Unweighted, Unweighted, u8, u32> = MDGraph::new();
    assert!(matches!(h.add_nodes(257), Err(GraphError::CapacityExceeded)));
    assert_eq!(h.node_count(), 0);
}

#[test]
fn reserve_changes_nothing_observable() {
    let mut g: G = MDGraph::new();
    let a = g.add_node().unwrap();
    g.reserve_nodes(100);
    g.reserve_edges(100);
    assert_eq!(g.node_count(), 1);
    assert_eq!(g.edge_count(), 0);
    assert_eq!(g.out_degree(a), 0);
}

#[test]
fn index_type_round_trips() {
    assert_eq!(<u8 as IndexType>::new(7).index(), 7);
    assert_eq!(<u16 as IndexType>::new(300).index(), 300);
    assert_eq!(<u32 as IndexType>::new(70000).index(), 70000);
    assert_eq!(<usize as IndexType>::new(123).index(), 123);
    assert_eq!(<u8 as IndexType>::max(), 255);
    assert_eq!(<u8 as IndexType>::zero(), 0);
    assert_eq!(<u8 as IndexType>::one(), 1);
    let n: NodeIndex<u16> = NodeIndex::new(9);
    assert_eq!(n.index(), 9);
    let e: EdgeIndex<u16> = EdgeIndex::new(11);
    assert_eq!(e.index(), 11);
    let end_n: NodeIndex<u8> = NodeIndex::end();
    assert_eq!(end_n.index(), 255);
    let end_e: EdgeIndex<u16> = EdgeIndex::end();
    assert_eq!(end_e.index(), 65535);
}

#[test]
fn unweighted_parses_only_the_empty_token() {
    assert!(matches!(<Unweighted as WeightType>::parse_weight(b""), Ok(Unweighted)));
    assert!(matches!(
        <Unweighted as WeightType>::parse_weight(b"1"),
        Err(GraphError::WeightParseError)
    ));
}

#[test]
fn decimal_weight_parses_exactly() {
    assert_eq!(
        <DecimalWeight as WeightType>::parse_weight(b"2.5").unwrap(),
        DecimalWeight::from_millis(2500)
    );
    assert_eq!(
        <DecimalWeight as WeightType>::parse_weight(b"0.25").unwrap(),
        DecimalWeight::from_millis(250)
    );
    assert_eq!(
        <DecimalWeight as WeightType>::parse_weight(b"0.125").unwrap(),
        DecimalWeight::from_millis(125)
    );
    assert_eq!(
        <DecimalWeight as WeightType>::parse_weight(b"17").unwrap(),
        DecimalWeight::from_millis(17000)
    );
    assert_eq!(
        <DecimalWeight as WeightType>::parse_weight(b"007").unwrap(),
        DecimalWeight::from_millis(7000)
    );
    assert!(matches!(
        <DecimalWeight as WeightType>::parse_weight(b""),
        Err(GraphError::WeightParseError)
    ));
    assert!(matches!(
        <DecimalWeight as WeightType>::parse_weight(b"1.2345"),
        Err(GraphError::WeightParseError)
    ));
    assert!(matches!(
        <DecimalWeight as WeightType>::parse_weight(b"-1"),
        Err(GraphError::WeightParseError)
    ));
    assert!(matches!(
        <DecimalWeight as WeightType>::parse_weight(b"1."),
        Err(GraphError::WeightParseError)
    ));
    assert!(matches!(
        <DecimalWeight as WeightType>::parse_weight(b"1.2.3"),
        Err(GraphError::WeightParseError)
    ));
    assert!(matches!(
        <DecimalWeight as WeightType>::parse_weight(b"99999999999999999999"),
        Err(GraphError::WeightParseError)
    ));
}
