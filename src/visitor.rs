//! Read-only access to a graph's topology.
use vstd::prelude::*;

verus! {

/// Visits a graph's nodes and arcs.
pub trait GraphVisitor {
    /// The nodes as `(index, weight)`, in the order they are visited.
    spec fn spec_nodes_visited(&self) -> Seq<(usize, i64)>;

    /// The stored arcs as `(source, destination, weight)`, in the order they
    /// are visited.
    spec fn spec_arcs_visited(&self) -> Seq<(usize, usize, i64)>;

    /// The number of arcs, as the graph counts them.
    spec fn spec_counted_arcs(&self) -> nat;

    /// The nodes as `(index, weight)`, in the order they are visited.
    fn node_entries(&self) -> (r: Vec<(usize, i64)>)
        ensures
            r@ == self.spec_nodes_visited(),
    ;

    /// The stored arcs as `(source, destination, weight)`, in the order they
    /// are visited.
    fn arc_entries(&self) -> (r: Vec<(usize, usize, i64)>)
        requires
            self.well_formed(),
        ensures
            r@ == self.spec_arcs_visited(),
    ;

    /// Calls `f(index, weight)` once for each node, by ascending index.
    fn node_visitor<F: FnMut(usize, i64)>(&self, f: F)
        requires
            forall|i: usize, w: i64| f.requires((i, w)),
    {
        let items = self.node_entries();
        visit_pairs(&items, f);
    }

    /// The graph's internal consistency.
    spec fn well_formed(&self) -> bool;

    /// Calls `g(source, destination, weight)` once for each stored arc.
    fn arc_visitor<G: FnMut(usize, usize, i64)>(&self, g: G)
        requires
            self.well_formed(),
            forall|i: usize, j: usize, w: i64| g.requires((i, j, w)),
    {
        let items = self.arc_entries();
        visit_triples(&items, g);
    }

    /// The number of nodes.
    fn node_count(&self) -> (r: usize)
        ensures
            r == self.spec_nodes_visited().len(),
    ;

    /// The number of arcs.
    fn arc_count(&self) -> (r: usize)
        ensures
            r == self.spec_counted_arcs(),
    ;

    /// The number of nodes and arcs together.
    fn total_entries(&self) -> (r: usize)
        requires
            self.spec_nodes_visited().len() + self.spec_counted_arcs() <= usize::MAX,
        ensures
            r == self.spec_nodes_visited().len() + self.spec_counted_arcs(),
    {
        self.arc_count() + self.node_count()
    }
}

/// Calls `f` on each entry of `items`, in order.
fn visit_pairs<F: FnMut(usize, i64)>(items: &Vec<(usize, i64)>, f: F)
    requires
        forall|i: usize, w: i64| f.requires((i, w)),
{
    let mut f = f;
    let mut k: usize = 0;
    while k < items.len()
        invariant
            k <= items@.len(),
            forall|i: usize, w: i64| f.requires((i, w)),
        decreases items@.len() - k,
    {
        let (i, w) = items[k];
        f(i, w);
        k += 1;
    }
}

/// Calls `g` on each entry of `items`, in order.
fn visit_triples<G: FnMut(usize, usize, i64)>(items: &Vec<(usize, usize, i64)>, g: G)
    requires
        forall|i: usize, j: usize, w: i64| g.requires((i, j, w)),
{
    let mut g = g;
    let mut k: usize = 0;
    while k < items.len()
        invariant
            k <= items@.len(),
            forall|i: usize, j: usize, w: i64| g.requires((i, j, w)),
        decreases items@.len() - k,
    {
        let (i, j, w) = items[k];
        g(i, j, w);
        k += 1;
    }
}

} // verus!
