use simplegraph::path_cost::{AllSubPathCost, ArcCost, SuccessorIterator};
use simplegraph::{AdjList, Graph, MatrixGraph};

#[test]
fn test_path_cost_iterator() {
    let mut graph = MatrixGraph::new_direct(4);
    graph.add_new_arc(0, 1, 1);
    graph.add_new_arc(1, 2, 2);
    graph.add_new_arc(2, 3, 3);
    graph.add_new_arc(3, 0, 4);

    let mut path_cost_iter = AllSubPathCost::new(&graph, &[0, 1, 2, 3]);
    assert_eq!(path_cost_iter.next(), Some((0, 1, 1)));
    assert_eq!(path_cost_iter.next(), Some((0, 2, 3)));
    assert_eq!(path_cost_iter.next(), Some((0, 3, 6)));
    assert_eq!(path_cost_iter.next(), Some((1, 2, 2)));
    assert_eq!(path_cost_iter.next(), Some((1, 3, 5)));
    assert_eq!(path_cost_iter.next(), Some((2, 3, 3)));
    assert_eq!(path_cost_iter.next(), None);
}

#[test]
fn test_successor_iterator() {
    let elements: [usize; 6] = [1, 2, 3, 4, 5, 6];
    let mut iter = SuccessorIterator::new(&elements);
    assert_eq!(iter.next(), Some((1, 2)));
    assert_eq!(iter.next(), Some((2, 3)));
    assert_eq!(iter.next(), Some((3, 4)));
    assert_eq!(iter.next(), Some((4, 5)));
    assert_eq!(iter.next(), Some((5, 6)));
    assert_eq!(iter.next(), None);
}

#[test]
fn successor_iterator_of_short_sequences_is_empty() {
    let none: [usize; 0] = [];
    assert_eq!(SuccessorIterator::new(&none).next(), None);
    let one: [usize; 1] = [7];
    let mut iter = SuccessorIterator::new(&one);
    assert_eq!(iter.next(), None);
    assert_eq!(iter.next(), None);
}

#[test]
fn path_cost_on_adjacency_list() {
    let mut graph = AdjList::new_direct(4);
    graph.add_new_arc(0, 1, 1);
    graph.add_new_arc(1, 2, 2);
    graph.add_new_arc(2, 3, 3);

    let mut iter = AllSubPathCost::new(&graph, &[0, 1, 2, 3]);
    assert_eq!(iter.next(), Some((0, 1, 1)));
    assert_eq!(iter.next(), Some((0, 2, 3)));
    assert_eq!(iter.next(), Some((0, 3, 6)));
    assert_eq!(iter.next(), Some((1, 2, 2)));
    assert_eq!(iter.next(), Some((1, 3, 5)));
    assert_eq!(iter.next(), Some((2, 3, 3)));
    assert_eq!(iter.next(), None);
    assert_eq!(iter.next(), None);
}

#[test]
fn path_cost_reports_nodes_not_positions() {
    let mut graph = MatrixGraph::new_direct(5);
    graph.add_new_arc(4, 2, 10);
    graph.add_new_arc(2, 3, -4);

    let mut iter = AllSubPathCost::new(&graph, &[4, 2, 3]);
    assert_eq!(iter.next(), Some((4, 2, 10)));
    assert_eq!(iter.next(), Some((4, 3, 6)));
    assert_eq!(iter.next(), Some((2, 3, -4)));
    assert_eq!(iter.next(), None);
}

#[test]
fn path_cost_of_short_walks_is_empty() {
    let graph = MatrixGraph::new_direct(2);
    let mut empty = AllSubPathCost::new(&graph, &[]);
    assert_eq!(empty.next(), None);
    let mut single = AllSubPathCost::new(&graph, &[1]);
    assert_eq!(single.next(), None);
    assert_eq!(single.next(), None);
}

#[test]
fn cost_lookup_on_both_backends() {
    let mut sparse = AdjList::new_undirect(3);
    sparse.add_new_arc(0, 2, 7);
    assert_eq!(sparse.cost(0, 2), 7);
    assert_eq!(sparse.cost(2, 0), 7);

    let mut dense = MatrixGraph::new_undirect(3);
    dense.add_new_arc(0, 2, 7);
    assert_eq!(dense.cost(0, 2), 7);
    assert_eq!(dense.cost(2, 0), 7);
}
