use simplegraph::dot::to_dot_source;
use simplegraph::{AdjList, Graph, MatrixGraph};

#[test]
fn test_dot_build_direct_graph() {
    let mut graph = AdjList::new_direct(4);
    graph.add_new_arc(0, 1, 1);
    graph.add_new_arc(1, 2, 2);
    graph.add_new_arc(3, 2, 11);
    graph.add_new_arc(1, 0, -1);

    let dot_code = to_dot_source(&graph);
    let expect = "digraph {\n\tn0 [label=\"0\"];\n\tn1 [label=\"0\"];\n\tn2 [label=\"0\"];\n\tn3 [label=\"0\"];\n\tn0 -> n1 [label=\"1\"];\n\tn1 -> n2 [label=\"2\"];\n\tn1 -> n0 [label=\"-1\"];\n\tn3 -> n2 [label=\"11\"];\n}";
    assert_eq!(dot_code, expect)
}

#[test]
fn test_dot_build_undirect_graph() {
    let mut graph = AdjList::new_undirect(4);
    graph.add_new_arc(0, 1, 1);
    graph.add_new_arc(1, 2, 2);
    graph.add_new_arc(3, 2, 11);

    let dot_code = to_dot_source(&graph);
    let expect = "graph {\n\tn0 [label=\"0\"];\n\tn1 [label=\"0\"];\n\tn2 [label=\"0\"];\n\tn3 [label=\"0\"];\n\tn0 -- n1 [label=\"1\"];\n\tn1 -- n2 [label=\"2\"];\n\tn2 -- n3 [label=\"11\"];\n}";
    assert_eq!(dot_code, expect)
}

#[test]
fn dot_of_matrix_graph_with_extreme_weights() {
    let mut graph = MatrixGraph::new_direct(12);
    graph.update_all_nodes_weight(|i, _| if i == 11 { i64::MIN } else { 0 });
    graph.add_new_arc(10, 11, i64::MAX);
    let dot_code = to_dot_source(&graph);
    assert!(dot_code.starts_with("digraph {\n\tn0 [label=\"0\"];\n"));
    assert!(dot_code.contains("\tn11 [label=\"-9223372036854775808\"];\n"));
    assert!(dot_code.ends_with("\n\tn10 -> n11 [label=\"9223372036854775807\"];\n}"));
}

#[test]
fn dot_of_empty_graph() {
    let graph = AdjList::new_undirect(0);
    assert_eq!(to_dot_source(&graph), "graph {\n\n}");
}
