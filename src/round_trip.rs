//! What survives a trip through the canonical form.
use vstd::prelude::*;

use crate::adjacency_list_graph::{self, AdjList, SparseView};
use crate::math_graph::{
    arc_keys, decoded, functional, lemma_inserted_keys_of_members, lemma_inserted_of_members,
    symmetric,
};
use crate::matrix_graph::{self, square, DenseView, MatrixGraph};
use crate::GraphType;

verus! {

/// The state in which an adjacency-list graph is rebuilt: its node weights
/// and no arcs.
proof fn lemma_sparse_start(gt: GraphType, nodes: Seq<i64>)
    requires
        nodes.len() <= usize::MAX,
    ensures
        ({
            let v = SparseView { nodes, ..SparseView::empty(nodes.len(), gt) };
            &&& v.wf()
            &&& v.gtype == gt
            &&& v.arc_set() == Set::<(usize, usize, i64)>::empty()
        }),
{
    let v = SparseView { nodes, ..SparseView::empty(nodes.len(), gt) };
    adjacency_list_graph::lemma_arcs_len_empty(v, nodes.len());
    assert(v.arc_set() =~= Set::<(usize, usize, i64)>::empty());
}

/// The state in which a matrix graph is rebuilt: its node weights and no
/// arcs.
proof fn lemma_dense_start(gt: GraphType, nodes: Seq<i64>)
    requires
        nodes.len() <= usize::MAX,
    ensures
        ({
            let v = DenseView { nodes, ..DenseView::empty(nodes.len(), gt) };
            &&& v.wf()
            &&& v.gtype == gt
            &&& v.arc_set() == Set::<(usize, usize, i64)>::empty()
        }),
{
    let v = DenseView { nodes, ..DenseView::empty(nodes.len(), gt) };
    matrix_graph::lemma_upto_len_empty(v, nodes.len());
    assert(DenseView::is_square(square(nodes.len(), false), nodes.len()));
    assert(DenseView::is_square(square(nodes.len(), 0i64), nodes.len()));
    assert(v.arc_set() =~= Set::<(usize, usize, i64)>::empty());
}

/// The arcs of a matrix graph have one weight per pair of ends.
proof fn lemma_dense_functional(v: DenseView)
    ensures
        functional(v.arc_set()),
{
}

/// Encoding an adjacency-list graph and rebuilding the result as an
/// adjacency-list graph gives back its type, its node weights and its set of
/// arcs. An undirected graph must hold each arc in both directions with the
/// same weight, as insertion leaves it: the canonical form keeps one
/// direction of each.
pub proof fn lemma_adj_list_round_trip(g: SparseView)
    requires
        g.wf(),
        g.gtype == GraphType::Undirect ==> symmetric(g.arc_set()),
    ensures
        ({
            let h = decoded::<AdjList>(g.gtype, g.nodes, g.arcs());
            &&& h.gtype == g.gtype
            &&& h.nodes == g.nodes
            &&& h.arc_set() == g.arc_set()
        }),
{
    let start = SparseView { nodes: g.nodes, ..SparseView::empty(g.nodes.len(), g.gtype) };
    lemma_sparse_start(g.gtype, g.nodes);
    adjacency_list_graph::lemma_arcs_members(g);
    adjacency_list_graph::lemma_replay_set(start, g.gtype, g.arcs());
    lemma_inserted_of_members(g.gtype, g.arcs(), g.arc_set());
    assert(Set::<(usize, usize, i64)>::empty().union(g.arc_set()) =~= g.arc_set());
}

/// Encoding a matrix graph and rebuilding the result as a matrix graph gives
/// back its type, its node weights and its set of arcs. An undirected graph
/// must hold each arc in both directions with the same weight, as insertion
/// leaves it: the canonical form keeps one direction of each.
pub proof fn lemma_matrix_round_trip(g: DenseView)
    requires
        g.wf(),
        g.gtype == GraphType::Undirect ==> symmetric(g.arc_set()),
    ensures
        ({
            let h = decoded::<MatrixGraph>(g.gtype, g.nodes, g.arcs());
            &&& h.gtype == g.gtype
            &&& h.nodes == g.nodes
            &&& h.arc_set() == g.arc_set()
        }),
{
    let start = DenseView { nodes: g.nodes, ..DenseView::empty(g.nodes.len(), g.gtype) };
    lemma_dense_start(g.gtype, g.nodes);
    lemma_dense_functional(g);
    matrix_graph::lemma_arcs_members(g);
    lemma_inserted_of_members(g.gtype, g.arcs(), g.arc_set());
    matrix_graph::lemma_replay_set(start, g.gtype, g.arcs(), g.arc_set());
    assert(Set::<(usize, usize, i64)>::empty().union(g.arc_set()) =~= g.arc_set());
}

/// Encoding an adjacency-list graph, rebuilding it as a matrix graph,
/// encoding that and rebuilding it as an adjacency-list graph gives back
/// its type, its node weights and its set of arcs. Repeated entries are
/// folded into one, so the graph must hold one weight per pair of ends (the
/// matrix keeps one), and, when undirected, each arc in both directions with
/// the same weight.
pub proof fn lemma_cross_backend_round_trip(g: SparseView)
    requires
        g.wf(),
        functional(g.arc_set()),
        g.gtype == GraphType::Undirect ==> symmetric(g.arc_set()),
    ensures
        ({
            let d = decoded::<MatrixGraph>(g.gtype, g.nodes, g.arcs());
            let h = decoded::<AdjList>(d.gtype, d.nodes, d.arcs());
            &&& d.wf()
            &&& d.arc_set() == g.arc_set()
            &&& h.gtype == g.gtype
            &&& h.nodes == g.nodes
            &&& h.arc_set() == g.arc_set()
        }),
{
    let s = g.arc_set();
    let dense_start = DenseView { nodes: g.nodes, ..DenseView::empty(g.nodes.len(), g.gtype) };
    lemma_dense_start(g.gtype, g.nodes);
    adjacency_list_graph::lemma_arcs_members(g);
    lemma_inserted_of_members(g.gtype, g.arcs(), s);
    matrix_graph::lemma_replay_set(dense_start, g.gtype, g.arcs(), s);
    assert(Set::<(usize, usize, i64)>::empty().union(s) =~= s);
    let d = decoded::<MatrixGraph>(g.gtype, g.nodes, g.arcs());
    let sparse_start = SparseView { nodes: d.nodes, ..SparseView::empty(d.nodes.len(), d.gtype) };
    lemma_sparse_start(d.gtype, d.nodes);
    matrix_graph::lemma_arcs_members(d);
    lemma_inserted_of_members(d.gtype, d.arcs(), s);
    adjacency_list_graph::lemma_replay_set(sparse_start, d.gtype, d.arcs());
}


/// The same trip, adjacency list to matrix and back, keeps the type, the
/// node weights and which nodes are joined by an arc, for every graph;
/// repeated entries and their weights may change.
pub proof fn lemma_cross_backend_keeps_arc_ends(g: SparseView)
    requires
        g.wf(),
    ensures
        ({
            let d = decoded::<MatrixGraph>(g.gtype, g.nodes, g.arcs());
            let h = decoded::<AdjList>(d.gtype, d.nodes, d.arcs());
            &&& d.wf()
            &&& h.gtype == g.gtype
            &&& h.nodes == g.nodes
            &&& arc_keys(h.arc_set()) == arc_keys(g.arc_set())
        }),
{
    let ks = arc_keys(g.arc_set());
    if g.gtype == GraphType::Undirect {
        adjacency_list_graph::lemma_keys_symmetric(g);
    }
    let dense_start = DenseView { nodes: g.nodes, ..DenseView::empty(g.nodes.len(), g.gtype) };
    lemma_dense_start(g.gtype, g.nodes);
    lemma_keys_of_empty(dense_start);
    adjacency_list_graph::lemma_arcs_members(g);
    assert forall|t: (usize, usize, i64)| #[trigger] g.arcs().contains(t) implies ks.contains(
        (t.0, t.1),
    ) by {
        assert(g.arc_set().contains(t));
    }
    assert forall|k: (usize, usize)| #[trigger] ks.contains(k) implies exists|t: (usize, usize, i64)|
        #[trigger] g.arcs().contains(t) && t.0 == k.0 && t.1 == k.1 by {
        let t = choose|t: (usize, usize, i64)|
            #[trigger] g.arc_set().contains(t) && t.0 == k.0 && t.1 == k.1;
        assert(g.arcs().contains(t));
    }
    lemma_inserted_keys_of_members(g.gtype, g.arcs(), ks);
    matrix_graph::lemma_replay_keys(dense_start, g.gtype, g.arcs());
    let d = decoded::<MatrixGraph>(g.gtype, g.nodes, g.arcs());
    assert(d.present_keys() =~= ks);
    matrix_graph::lemma_keys_are_present(d);
    matrix_graph::lemma_arcs_members(d);
    assert forall|t: (usize, usize, i64)| #[trigger] d.arcs().contains(t) implies ks.contains(
        (t.0, t.1),
    ) by {
        assert(d.arc_set().contains(t));
        assert(arc_keys(d.arc_set()).contains((t.0, t.1)));
    }
    assert forall|k: (usize, usize)| #[trigger] ks.contains(k) implies exists|t: (usize, usize, i64)|
        #[trigger] d.arcs().contains(t) && t.0 == k.0 && t.1 == k.1 by {
        let t = (k.0, k.1, d.weights[k.0 as int][k.1 as int]);
        assert(d.arc_set().contains(t));
        assert(d.arcs().contains(t));
    }
    if g.gtype == GraphType::Undirect {
        assert forall|k: (usize, usize)| #[trigger] ks.contains(k) implies ks.contains((k.1, k.0)) by {
            assert(d.present[k.0 as int][k.1 as int] == d.present[k.1 as int][k.0 as int]);
        }
    }
    lemma_inserted_keys_of_members(d.gtype, d.arcs(), ks);
    let sparse_start = SparseView { nodes: d.nodes, ..SparseView::empty(d.nodes.len(), d.gtype) };
    lemma_sparse_start(d.gtype, d.nodes);
    adjacency_list_graph::lemma_replay_set(sparse_start, d.gtype, d.arcs());
    assert(Set::<(usize, usize, i64)>::empty().union(
        crate::math_graph::inserted(d.gtype, d.arcs()),
    ) =~= crate::math_graph::inserted(d.gtype, d.arcs()));
}

/// A matrix graph without arcs joins no nodes.
proof fn lemma_keys_of_empty(v: DenseView)
    requires
        v.present == square(v.nodes.len(), false),
    ensures
        v.present_keys() == Set::<(usize, usize)>::empty(),
{
    assert(v.present_keys() =~= Set::<(usize, usize)>::empty());
}

} // verus!
