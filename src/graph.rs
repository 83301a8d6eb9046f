//! Creation and update of a weighted graph's arcs and weights.
use vstd::prelude::*;

use crate::GraphType;

verus! {

/// The operations that every storage backend offers. A backend's state is
/// its view `Self::V`; the spec functions below read it and say what each
/// operation makes of it.
pub trait Graph: Sized + View {
    /// The backend's internal consistency.
    spec fn spec_wf(v: Self::V) -> bool;

    /// Node weights, by node index.
    spec fn spec_nodes(v: Self::V) -> Seq<i64>;

    spec fn spec_kind(v: Self::V) -> GraphType;

    /// Number of stored arc entries, as the backend counts them.
    spec fn spec_arc_count(v: Self::V) -> nat;

    /// Whether the backend can hold `node_count` nodes.
    spec fn spec_can_allocate(node_count: nat) -> bool;

    /// The state of a new graph.
    spec fn spec_new(node_count: nat, gtype: GraphType) -> Self::V;

    /// The state after inserting the arc `src -> dst` with weight `w`.
    spec fn spec_add(v: Self::V, src: usize, dst: usize, w: i64) -> Self::V;

    /// The state with node weights `nodes` and everything else kept.
    spec fn spec_set_nodes(v: Self::V, nodes: Seq<i64>) -> Self::V;

    /// `after` is `before` with the weight `w` of every stored arc `i -> j`
    /// replaced by a weight `w2` such that `rel(i, j, w, w2)`.
    spec fn spec_reweighted(
        before: Self::V,
        after: Self::V,
        rel: spec_fn(usize, usize, i64, i64) -> bool,
    ) -> bool;

    /// A graph of `node_count` nodes of weight zero and no arcs.
    fn new(node_count: usize, gtype: GraphType) -> (r: Self)
        requires
            Self::spec_can_allocate(node_count as nat),
        ensures
            r@ == Self::spec_new(node_count as nat, gtype),
            Self::spec_wf(r@),
            Self::spec_nodes(r@) == Seq::new(node_count as nat, |i: int| 0i64),
            Self::spec_kind(r@) == gtype,
            Self::spec_arc_count(r@) == 0,
    ;

    /// Inserts the arc `src -> dst` with weight zero (and `dst -> src` when
    /// the graph is undirected).
    fn add_new_default_arc(&mut self, src: usize, dst: usize)
        requires
            Self::spec_wf(old(self)@),
            src < Self::spec_nodes(old(self)@).len(),
            dst < Self::spec_nodes(old(self)@).len(),
            Self::spec_arc_count(old(self)@) + 2 <= usize::MAX,
        ensures
            final(self)@ == Self::spec_add(old(self)@, src, dst, 0),
            Self::spec_wf(final(self)@),
            Self::spec_nodes(final(self)@) == Self::spec_nodes(old(self)@),
            Self::spec_kind(final(self)@) == Self::spec_kind(old(self)@),
            Self::spec_arc_count(final(self)@) <= Self::spec_arc_count(old(self)@) + 2,
    ;

    /// Inserts the arc `src -> dst` with weight `weight` (and `dst -> src`
    /// when the graph is undirected).
    fn add_new_arc(&mut self, src: usize, dst: usize, weight: i64)
        requires
            Self::spec_wf(old(self)@),
            src < Self::spec_nodes(old(self)@).len(),
            dst < Self::spec_nodes(old(self)@).len(),
            Self::spec_arc_count(old(self)@) + 2 <= usize::MAX,
        ensures
            final(self)@ == Self::spec_add(old(self)@, src, dst, weight),
            Self::spec_wf(final(self)@),
            Self::spec_nodes(final(self)@) == Self::spec_nodes(old(self)@),
            Self::spec_kind(final(self)@) == Self::spec_kind(old(self)@),
            Self::spec_arc_count(final(self)@) <= Self::spec_arc_count(old(self)@) + 2,
    ;

    /// Replaces the weight `w` of every stored arc `i -> j` by `f(i, j, w)`.
    fn update_all_arcs_weight<F: Fn(usize, usize, i64) -> i64>(&mut self, f: F)
        requires
            Self::spec_wf(old(self)@),
            forall|i: usize, j: usize, w: i64| f.requires((i, j, w)),
        ensures
            Self::spec_wf(final(self)@),
            Self::spec_reweighted(
                old(self)@,
                final(self)@,
                |i: usize, j: usize, w: i64, w2: i64| f.ensures((i, j, w), w2),
            ),
            Self::spec_nodes(final(self)@) == Self::spec_nodes(old(self)@),
            Self::spec_kind(final(self)@) == Self::spec_kind(old(self)@),
            Self::spec_arc_count(final(self)@) == Self::spec_arc_count(old(self)@),
    ;

    /// Replaces the weight `w` of every node `i` by `f(i, w)`.
    fn update_all_nodes_weight<F: Fn(usize, i64) -> i64>(&mut self, f: F)
        requires
            Self::spec_wf(old(self)@),
            forall|i: usize, w: i64| f.requires((i, w)),
        ensures
            Self::spec_wf(final(self)@),
            Self::spec_nodes(final(self)@).len() == Self::spec_nodes(old(self)@).len(),
            forall|i: int|
                0 <= i < Self::spec_nodes(old(self)@).len() ==> f.ensures(
                    (i as usize, #[trigger] Self::spec_nodes(old(self)@)[i]),
                    Self::spec_nodes(final(self)@)[i],
                ),
            final(self)@ == Self::spec_set_nodes(old(self)@, Self::spec_nodes(final(self)@)),
    ;
}

} // verus!
