use simplegraph::path_cost::ArcCost;
use simplegraph::update_nodes::UpdateNodes;
use simplegraph::adjacency_list_graph::AdjArc;
use simplegraph::{AdjList, GetGraphType, Graph, GraphType, GraphVisitor};

fn make_graph() -> AdjList {
    let mut graph = AdjList::new_undirect(4);
    graph.add_new_arc(0, 1, 1);
    graph.add_new_arc(1, 2, 2);
    graph.add_new_arc(2, 3, 3);
    graph.add_new_arc(3, 0, 4);
    graph
}

#[test]
fn test_arc_cost() {
    let graph = make_graph();
    assert_eq!(graph.cost(0, 1), 1);
    assert_eq!(graph.cost(3, 0), 4);
}

#[test]
fn adjacency_list_graph_test_direct_graph() {
    let mut graph = AdjList::new_direct(4);
    graph.add_new_arc(0, 1, 1);
    graph.add_new_arc(1, 2, 2);
    graph.add_new_arc(2, 3, 3);
    graph.add_new_arc(3, 0, 4);

    for (node, expect) in [1, 2, 3, 4].iter().enumerate() {
        let list = graph.successor_iterator(node);
        assert_eq!(list.len(), 1);
        assert_eq!(list[0].2, *expect);
    }
}

#[test]
fn adjacency_list_graph_test_mut_nodes_weights() {
    let mut graph = AdjList::new_direct(5);
    for (_, n) in graph.node_iterator() {
        assert_eq!(n, 0);
    }

    graph.update_all_nodes_weight(|i, _| 3 * (i as i64));

    for (i, n) in graph.node_iterator() {
        assert_eq!(n, 3 * (i as i64));
    }
}

#[test]
fn adjacency_list_graph_test_mut_arc_weights() {
    let mut graph = AdjList::new_direct(4);
    graph.add_new_arc(0, 1, 1);
    graph.add_new_arc(1, 2, 2);
    graph.add_new_arc(2, 3, 3);
    graph.add_new_arc(3, 0, 4);

    graph.update_all_arcs_weight(|_, _, w| 2 * w);

    for (i, j, w) in graph.arc_iterator() {
        match (i, j) {
            (0, 1) => assert_eq!(2, w),
            (1, 2) => assert_eq!(4, w),
            (2, 3) => assert_eq!(6, w),
            (3, 0) => assert_eq!(8, w),
            (a, b) => panic!("Not existing arc ({a} {b})"),
        }
    }

    for n in 0..4 {
        let mut count = 0;
        for (i, j, w) in graph.successor_iterator(n) {
            count += 1;
            assert_eq!(i, n);
            match (n, j) {
                (0, 1) => assert_eq!(2, w),
                (1, 2) => assert_eq!(4, w),
                (2, 3) => assert_eq!(6, w),
                (3, 0) => assert_eq!(8, w),
                (a, b) => panic!("Not existing arc ({a} {b})"),
            }
        }
        assert_eq!(count, 1);
    }
}

#[test]
fn arc_update_receives_source_and_destination() {
    let mut graph = AdjList::new_direct(4);
    graph.add_new_arc(0, 3, 1);
    graph.add_new_arc(0, 2, 1);
    graph.update_all_arcs_weight(|i, j, w| 100 * (i as i64) + 10 * (j as i64) + w);
    assert_eq!(graph.arc_iterator(), vec![(0, 3, 31), (0, 2, 21)]);
}

#[test]
fn test_undirect_graph() {
    let graph = make_graph();
    for node in 0..4 {
        assert_eq!(graph.successor_iterator(node).len(), 2);
    }
}

#[test]
fn adjacency_list_graph_test_node_visitor() {
    let mut graph = make_graph();
    graph.update_all_nodes_weight(|i, _| i as i64);
    let mut visit_list: Vec<(usize, i64)> = vec![];
    graph.node_visitor(|i, n| visit_list.push((i, n)));
    assert_eq!(vec![(0, 0), (1, 1), (2, 2), (3, 3)], visit_list);
}

#[test]
fn adjacency_list_graph_test_arc_visitor() {
    let graph = make_graph();
    let mut visit_list: Vec<(usize, usize, i64)> = vec![];
    graph.arc_visitor(|i, j, n| visit_list.push((i, j, n)));
    let expect = vec![
        (0, 1, 1),
        (0, 3, 4),
        (1, 0, 1),
        (1, 2, 2),
        (2, 1, 2),
        (2, 3, 3),
        (3, 2, 3),
        (3, 0, 4),
    ];
    assert_eq!(expect, visit_list);
}

#[test]
fn test_conversion() {
    let mut orig_graph = AdjList::new_undirect(4);
    orig_graph.update_all_nodes_weight(|i, _| i as i64);
    orig_graph.add_new_arc(0, 1, 1);
    orig_graph.add_new_arc(1, 2, 2);
    orig_graph.add_new_arc(2, 3, 3);

    let math_graph = orig_graph.clone().into_math_graph();
    let new_graph = AdjList::from_math_graph(math_graph).unwrap();
    assert_eq!(orig_graph, new_graph);

    let mut orig_graph = AdjList::new_direct(4);
    orig_graph.update_all_nodes_weight(|i, _| i as i64);
    orig_graph.add_new_arc(0, 1, 1);
    orig_graph.add_new_arc(1, 2, 2);
    orig_graph.add_new_arc(2, 3, 3);

    let math_graph = orig_graph.clone().into_math_graph();
    let new_graph = AdjList::from_math_graph(math_graph).unwrap();
    assert_eq!(orig_graph, new_graph);
}

#[test]
fn new_graph_has_zero_weights_and_no_arcs() {
    for gtype in [GraphType::Direct, GraphType::Undirect] {
        for n in [0usize, 1, 7] {
            let graph = <AdjList as Graph>::new(n, gtype);
            assert_eq!(graph.node_count(), n);
            assert_eq!(graph.arc_count(), 0);
            assert_eq!(graph.graph_type(), gtype);
            assert!(graph.node_iterator().iter().all(|&(_, w)| w == 0));
            assert!(graph.arc_iterator().is_empty());
        }
    }
}

#[test]
fn undirected_insertion_visits_both_directions() {
    let mut graph = AdjList::new_undirect(3);
    graph.add_new_arc(2, 0, 5);
    let arcs = graph.arc_iterator();
    assert!(arcs.contains(&(2, 0, 5)));
    assert!(arcs.contains(&(0, 2, 5)));
    assert_eq!(graph.arc_count(), 2);
}

#[test]
fn reinsertion_duplicates_and_first_weight_wins() {
    let mut graph = AdjList::new_direct(3);
    graph.add_new_arc(0, 1, 4);
    assert_eq!(graph.arc_count(), 1);
    graph.add_new_arc(0, 1, 9);
    assert_eq!(graph.arc_count(), 2);
    assert_eq!(graph.successor_iterator(0), vec![(0, 1, 4), (0, 1, 9)]);
    assert_eq!(graph.cost(0, 1), 4);
}

#[test]
fn default_arc_has_zero_weight() {
    let mut graph = AdjList::new_direct(2);
    graph.add_new_default_arc(1, 0);
    assert_eq!(graph.arc_iterator(), vec![(1, 0, 0)]);
}

#[test]
fn bulk_node_updates() {
    let mut graph = AdjList::new_direct(4);
    graph.update_all_nodes_weight_iter(&[5, 6]);
    assert_eq!(graph.node_iterator(), vec![(0, 5), (1, 6), (2, 0), (3, 0)]);
    graph.update_indexed_nodes_weight(&[(3, 1), (0, 2), (3, 8)]);
    assert_eq!(graph.node_iterator(), vec![(0, 2), (1, 6), (2, 0), (3, 8)]);
    assert_eq!(graph.total_entries(), 4);
}

#[test]
fn adj_arc_getters() {
    let arc = AdjArc::new(-3, 2);
    assert_eq!(arc.weight(), -3);
    assert_eq!(arc.next(), 2);
}
