use simplegraph::math_graph::{count_zeros, Arcs, CompactNodes, DecodeError, MathGraph, Nodes};
use simplegraph::{AdjList, Graph, GraphType, GraphVisitor, MatrixGraph};

#[test]
fn test_nodes_constructor() {
    let zero_nodes = vec![0; 10];
    let nodes = Nodes::new(zero_nodes);
    assert!(matches!(nodes, Nodes::Compact(c) if c.count == 10 && c.weights == vec![]));

    let ones = vec![1; 10];
    let nodes = Nodes::new(ones);
    assert!(matches!(nodes, Nodes::Extended(e) if e == vec![1; 10]));

    let mixed = vec![0, 1, 0, 1, 0, 1, 0, 1, 0, 0];
    let nodes = Nodes::new(mixed);
    assert!(
        matches!(nodes, Nodes::Compact(c) if c.count == 10 && c.weights == vec![(1, 1), (3, 1), (5, 1), (7, 1)])
    );
}

#[test]
fn test_count_zeros() {
    let zeros = vec![0; 10];
    assert_eq!(count_zeros(&zeros), 10);

    let ones = vec![1; 10];
    assert_eq!(count_zeros(&ones), 0);

    let mixed = vec![0, 1, 0, 1, 0];
    assert_eq!(count_zeros(&mixed), 3);
}

#[test]
fn compaction_boundary() {
    let five_zeros = vec![0, 0, 0, 0, 0, 1, 2, 3, 4, 5];
    assert!(matches!(Nodes::new(five_zeros), Nodes::Extended(_)));
    let six_zeros = vec![0, 0, 0, 0, 0, 0, 2, 3, 4, 5];
    assert!(
        matches!(Nodes::new(six_zeros), Nodes::Compact(c) if c.count == 10 && c.weights == vec![(6, 2), (7, 3), (8, 4), (9, 5)])
    );
    assert!(matches!(Nodes::new(vec![]), Nodes::Extended(e) if e.is_empty()));
    assert!(matches!(Nodes::new(vec![0]), Nodes::Extended(_)));
    assert!(matches!(Nodes::new(vec![0, 0]), Nodes::Compact(c) if c.count == 2));
}

#[test]
fn canonical_accessors() {
    let nodes = Nodes::new(vec![3, 0, 4]);
    assert_eq!(nodes.node_count(), 3);
    let arcs = Arcs::new_simple(&vec![(0, 1, 5), (1, 2, 6)]);
    assert!(matches!(&arcs, Arcs::Simple(v) if *v == vec![(0, 1), (1, 2)]));
    let g = MathGraph::new(nodes, arcs, GraphType::Direct);
    assert_eq!(g.node_count(), 3);
    assert_eq!(g.graph_type(), GraphType::Direct);
    let (nodes, arcs) = g.dismount();
    assert!(matches!(nodes, Nodes::Extended(e) if e == vec![3, 0, 4]));
    assert!(matches!(arcs, Arcs::Simple(_)));
    let compact = CompactNodes::new(4, vec![(2, 9)]);
    assert_eq!(compact.iter_weights(), vec![(2, 9)]);
}

#[test]
fn simple_arcs_rebuild_with_zero_weight() {
    let nodes = Nodes::Compact(CompactNodes::new(3, vec![(1, 7)]));
    let arcs = Arcs::Simple(vec![(0, 1), (2, 0)]);
    let g = MathGraph::new(nodes, arcs, GraphType::Undirect);
    let h = AdjList::from_math_graph(g).unwrap();
    assert_eq!(h.node_iterator(), vec![(0, 0), (1, 7), (2, 0)]);
    assert_eq!(h.arc_iterator(), vec![(0, 1, 0), (1, 0, 0)]);
}

#[test]
fn decode_rejects_bad_node_index() {
    let nodes = Nodes::Compact(CompactNodes::new(3, vec![(3, 7)]));
    let g = MathGraph::new(nodes, Arcs::Weighted(vec![]), GraphType::Direct);
    assert!(matches!(g.validate(), Err(DecodeError::NodeIndexOutOfRange)));
    assert_eq!(
        AdjList::from_math_graph(g).unwrap_err(),
        DecodeError::NodeIndexOutOfRange
    );
}

#[test]
fn decode_rejects_bad_arc_index() {
    let nodes = Nodes::Extended(vec![1, 2]);
    let g = MathGraph::new(nodes, Arcs::Weighted(vec![(0, 1, 1), (1, 2, 1)]), GraphType::Direct);
    assert!(matches!(g.validate(), Err(DecodeError::ArcIndexOutOfRange)));
    assert_eq!(
        MatrixGraph::from_math_graph(g).unwrap_err(),
        DecodeError::ArcIndexOutOfRange
    );
}

fn make_undirect_graph(f: fn(usize) -> AdjList) -> AdjList {
    let mut graph = f(4);
    graph.update_all_nodes_weight(|i, _| i as i64);
    graph.add_new_arc(0, 1, 1);
    graph.add_new_arc(1, 2, 2);
    graph.add_new_arc(2, 3, 3);
    graph
}

fn run_serialiation(f: fn(usize) -> AdjList) {
    let orig_graph = make_undirect_graph(f);
    let tmp_graph = MatrixGraph::from_math_graph(orig_graph.clone().into_math_graph()).unwrap();
    let new_graph = AdjList::from_math_graph(tmp_graph.into_math_graph()).unwrap();
    assert_eq!(orig_graph, new_graph);
}

#[test]
fn test_adjlist_serialization() {
    run_serialiation(AdjList::new_direct);
    run_serialiation(AdjList::new_undirect);
}

fn make_matrix_graph() -> MatrixGraph {
    let mut g = MatrixGraph::new_undirect(4);
    g.update_all_nodes_weight(|i, _| if i == 2 { 5 } else { 0 });
    g.add_new_arc(3, 1, 4);
    g.add_new_arc(0, 0, 2);
    g
}

#[test]
fn matrix_round_trip_keeps_weights_and_arcs() {
    let g = make_matrix_graph();
    let (nodes, arcs, count) = (g.node_iterator(), g.arc_iterator(), g.arc_count());
    assert!(matches!(g.into_math_graph().dismount().0, Nodes::Compact(_)));
    let h = MatrixGraph::from_math_graph(make_matrix_graph().into_math_graph()).unwrap();
    assert_eq!(h.node_iterator(), nodes);
    assert_eq!(h.arc_iterator(), arcs);
    assert_eq!(h.arc_count(), count);
}

#[test]
fn cross_backend_round_trip_folds_duplicates() {
    let mut g = AdjList::new_direct(3);
    g.add_new_arc(0, 1, 4);
    g.add_new_arc(0, 1, 4);
    g.add_new_arc(2, 0, 1);
    let d = MatrixGraph::from_math_graph(g.into_math_graph()).unwrap();
    assert_eq!(d.arc_count(), 2);
    let h = AdjList::from_math_graph(d.into_math_graph()).unwrap();
    assert_eq!(h.arc_iterator(), vec![(0, 1, 4), (2, 0, 1)]);
    assert_eq!(h.arc_count(), 2);
}
