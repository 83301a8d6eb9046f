//! Weighted graphs with two storage backends (adjacency lists and dense
//! matrices), a backend-neutral canonical form to move a graph between them,
//! and the cumulative costs of the sub-walks of a walk.
use vstd::prelude::*;

pub mod adjacency_list_graph;
pub mod dot;
pub mod graph;
pub mod grid;
pub mod math_graph;
pub mod matrix_graph;
pub mod path_cost;
pub mod round_trip;
pub mod update_nodes;
pub mod visitor;

pub use adjacency_list_graph::AdjList;
pub use graph::Graph;
pub use matrix_graph::MatrixGraph;
pub use visitor::GraphVisitor;

verus! {

/// Whether a graph is directed or not.
#[derive(Clone, Copy, PartialEq, Eq, Structural, Debug)]
pub enum GraphType {
    Direct,
    Undirect,
}

/// Reports a graph's type.
pub trait GetGraphType {
    spec fn spec_graph_type(&self) -> GraphType;

    fn graph_type(&self) -> (r: GraphType)
        ensures
            r == self.spec_graph_type(),
    ;
}

/// `count` empty lists.
fn empty_list_of_lists<T>(count: usize) -> (r: Vec<Vec<T>>)
    ensures
        r@.len() == count,
        forall|i: int| 0 <= i < count ==> (#[trigger] r@[i])@.len() == 0,
{
    let mut r: Vec<Vec<T>> = Vec::new();
    let mut i: usize = 0;
    while i < count
        invariant
            i <= count,
            r@.len() == i,
            forall|k: int| 0 <= k < i ==> (#[trigger] r@[k])@.len() == 0,
        decreases count - i,
    {
        r.push(Vec::new());
        i += 1;
    }
    r
}

} // verus!
