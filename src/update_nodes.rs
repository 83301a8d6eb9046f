//! Bulk assignment of node weights.
use vstd::prelude::*;

use crate::graph::Graph;

verus! {

/// `count` weights equal to zero.
pub open spec fn zeros(count: nat) -> Seq<i64> {
    Seq::new(count, |i: int| 0i64)
}

/// `base` with its first entries replaced by `weights`, in order; entries of
/// `weights` beyond the length of `base` are dropped.
pub open spec fn overlay(base: Seq<i64>, weights: Seq<i64>) -> Seq<i64> {
    Seq::new(base.len(), |i: int| if i < weights.len() { weights[i] } else { base[i] })
}

/// `base` after assigning each `(index, weight)` pair of `pairs` in order;
/// a later pair for the same index wins.
pub open spec fn apply_indexed(base: Seq<i64>, pairs: Seq<(usize, i64)>) -> Seq<i64>
    decreases pairs.len(),
{
    if pairs.len() == 0 {
        base
    } else {
        let prev = apply_indexed(base, pairs.drop_last());
        let p = pairs.last();
        if p.0 < prev.len() {
            prev.update(p.0 as int, p.1)
        } else {
            prev
        }
    }
}

pub proof fn lemma_apply_indexed_len(base: Seq<i64>, pairs: Seq<(usize, i64)>)
    ensures
        apply_indexed(base, pairs).len() == base.len(),
    decreases pairs.len(),
{
    if pairs.len() > 0 {
        lemma_apply_indexed_len(base, pairs.drop_last());
    }
}

/// Assignment of many node weights at once.
pub trait UpdateNodes: Graph {
    /// Gives the first nodes, in index order, the weights of `weights`.
    fn update_all_nodes_weight_iter(&mut self, weights: &[i64])
        requires
            Self::spec_wf(old(self)@),
        ensures
            Self::spec_wf(final(self)@),
            Self::spec_kind(final(self)@) == Self::spec_kind(old(self)@),
            Self::spec_arc_count(final(self)@) == Self::spec_arc_count(old(self)@),
            Self::spec_nodes(final(self)@) == overlay(Self::spec_nodes(old(self)@), weights@),
            final(self)@ == Self::spec_set_nodes(old(self)@, Self::spec_nodes(final(self)@)),
    ;

    /// Assigns each `(index, weight)` pair, in order.
    fn update_indexed_nodes_weight(&mut self, pairs: &[(usize, i64)])
        requires
            Self::spec_wf(old(self)@),
            forall|k: int|
                0 <= k < pairs@.len() ==> (#[trigger] pairs@[k]).0 < Self::spec_nodes(
                    old(self)@,
                ).len(),
        ensures
            Self::spec_wf(final(self)@),
            Self::spec_kind(final(self)@) == Self::spec_kind(old(self)@),
            Self::spec_arc_count(final(self)@) == Self::spec_arc_count(old(self)@),
            Self::spec_nodes(final(self)@) == apply_indexed(Self::spec_nodes(old(self)@), pairs@),
            final(self)@ == Self::spec_set_nodes(old(self)@, Self::spec_nodes(final(self)@)),
    ;
}

} // verus!
