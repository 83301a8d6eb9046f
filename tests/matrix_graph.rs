use simplegraph::path_cost::ArcCost;
use simplegraph::{GetGraphType, Graph, GraphType, GraphVisitor, MatrixGraph};

fn make_graph() -> MatrixGraph {
    let mut graph = MatrixGraph::new_undirect(4);
    graph.add_new_arc(0, 1, 1);
    graph.add_new_arc(1, 2, 2);
    graph.add_new_arc(2, 3, 3);
    graph.add_new_arc(3, 0, 4);
    graph
}

#[test]
fn matrix_graph_test_direct_graph() {
    let mut graph = MatrixGraph::new_direct(4);
    graph.add_new_arc(0, 1, 1);
    graph.add_new_arc(1, 2, 2);
    graph.add_new_arc(2, 3, 3);
    graph.add_new_arc(3, 0, 4);

    assert_eq!(graph.cost(0, 1), 1);
    assert_eq!(graph.cost(1, 2), 2);
    assert_eq!(graph.cost(2, 3), 3);
    assert_eq!(graph.cost(3, 0), 4);

    let arcs = graph.arc_iterator();
    assert!(!arcs.iter().any(|&(i, j, _)| (i, j) == (1, 0)));
    assert!(!arcs.iter().any(|&(i, j, _)| (i, j) == (2, 1)));
    assert!(!arcs.iter().any(|&(i, j, _)| (i, j) == (3, 2)));
    assert!(!arcs.iter().any(|&(i, j, _)| (i, j) == (0, 3)));
}

#[test]
fn matrix_graph_test_mut_nodes_weights() {
    let mut graph = MatrixGraph::new_direct(5);
    for (_, n) in graph.node_iterator() {
        assert_eq!(n, 0);
    }

    graph.update_all_nodes_weight(|i, _| 3 * (i as i64));

    for (i, n) in graph.node_iterator() {
        assert_eq!(n, 3 * (i as i64));
    }
}

#[test]
fn matrix_graph_test_mut_arc_weights() {
    let mut graph = make_graph();

    graph.update_all_arcs_weight(|_, _, w| 2 * w);

    for (i, j, w) in graph.arc_iterator() {
        match (i, j) {
            (0, 1) | (1, 0) => assert_eq!(2, w),
            (1, 2) | (2, 1) => assert_eq!(4, w),
            (2, 3) | (3, 2) => assert_eq!(6, w),
            (3, 0) | (0, 3) => assert_eq!(8, w),
            (a, b) => panic!("Not existing arc ({a} {b}) with weight {w}"),
        }
    }

    assert_eq!(graph.cost(0, 1), 2);
    assert_eq!(graph.cost(1, 2), 4);
    assert_eq!(graph.cost(2, 3), 6);
    assert_eq!(graph.cost(3, 0), 8);

    assert_eq!(graph.cost(1, 0), 2);
    assert_eq!(graph.cost(2, 1), 4);
    assert_eq!(graph.cost(3, 2), 6);
    assert_eq!(graph.cost(0, 3), 8);
}

#[test]
fn matrix_graph_test_node_visitor() {
    let mut graph = make_graph();
    graph.update_all_nodes_weight(|i, _| i as i64);
    let mut visit_list: Vec<(usize, i64)> = vec![];
    graph.node_visitor(|i, n| visit_list.push((i, n)));
    assert_eq!(vec![(0, 0), (1, 1), (2, 2), (3, 3)], visit_list);
}

#[test]
fn matrix_graph_test_arc_visitor() {
    let graph = make_graph();
    let mut visit_list: Vec<(usize, usize, i64)> = vec![];
    graph.arc_visitor(|i, j, n| visit_list.push((i, j, n)));
    let expect = vec![
        (0, 1, 1),
        (0, 3, 4),
        (1, 0, 1),
        (1, 2, 2),
        (2, 1, 2),
        (2, 3, 3),
        (3, 0, 4),
        (3, 2, 3),
    ];
    assert_eq!(expect, visit_list);
}

#[test]
fn matrix_new_graph_has_zero_weights_and_no_arcs() {
    for gtype in [GraphType::Direct, GraphType::Undirect] {
        for n in [0usize, 1, 6] {
            let graph = <MatrixGraph as Graph>::new(n, gtype);
            assert_eq!(graph.node_count(), n);
            assert_eq!(graph.arc_count(), 0);
            assert_eq!(graph.graph_type(), gtype);
            assert!(graph.node_iterator().iter().all(|&(_, w)| w == 0));
            assert!(graph.arc_iterator().is_empty());
        }
    }
}

#[test]
fn matrix_reinsertion_keeps_weight_and_count() {
    let mut graph = MatrixGraph::new_direct(3);
    graph.add_new_arc(0, 1, 4);
    assert_eq!(graph.arc_count(), 1);
    graph.add_new_arc(0, 1, 9);
    assert_eq!(graph.arc_count(), 1);
    assert_eq!(graph.cost(0, 1), 4);
    assert_eq!(graph.arc_iterator(), vec![(0, 1, 4)]);
}

#[test]
fn matrix_undirected_insertion_visits_both_directions() {
    let mut graph = MatrixGraph::new_undirect(3);
    graph.add_new_arc(2, 0, 5);
    assert_eq!(graph.arc_iterator(), vec![(0, 2, 5), (2, 0, 5)]);
    assert_eq!(graph.arc_count(), 2);
    graph.add_new_arc(1, 1, 3);
    assert_eq!(graph.arc_count(), 3);
    assert_eq!(graph.successor_iterator(1), vec![(1, 1, 3)]);
}

#[test]
fn matrix_arc_update_skips_absent_cells() {
    let mut graph = MatrixGraph::new_direct(3);
    graph.add_new_arc(2, 1, 1);
    graph.update_all_arcs_weight(|i, j, w| 10 * (i as i64) + (j as i64) + w);
    assert_eq!(graph.arc_iterator(), vec![(2, 1, 22)]);
    assert_eq!(graph.total_entries(), 4);
}
