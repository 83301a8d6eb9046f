//! The cumulative costs of all the sub-walks of a walk.
use vstd::prelude::*;

verus! {

/// Direct lookup of the cost of an arc.
pub trait ArcCost {
    /// Whether the arc `src -> dst` is stored.
    spec fn spec_has_arc(&self, src: usize, dst: usize) -> bool;

    /// The weight that a lookup of the arc `src -> dst` returns.
    spec fn spec_cost(&self, src: usize, dst: usize) -> i64;

    /// The weight of the arc `src -> dst`, which must exist.
    fn cost(&self, src: usize, dst: usize) -> (r: i64)
        requires
            self.spec_has_arc(src, dst),
        ensures
            r == self.spec_cost(src, dst),
    ;
}

/// Every step `path[k] -> path[k + 1]` of the walk is an arc of `g`.
pub open spec fn walk_exists<G: ArcCost>(g: &G, path: Seq<usize>) -> bool {
    forall|k: int| 0 <= k < path.len() - 1 ==> #[trigger] g.spec_has_arc(path[k], path[k + 1])
}

/// The sum of the arc costs along `path[s..=e]`.
pub open spec fn walk_cost<G: ArcCost>(g: &G, path: Seq<usize>, s: int, e: int) -> int
    decreases e - s,
{
    if e <= s {
        0
    } else {
        walk_cost(g, path, s, e - 1) + g.spec_cost(path[e - 1], path[e]) as int
    }
}

/// The cost of every sub-walk fits in an `i64`.
pub open spec fn costs_fit<G: ArcCost>(g: &G, path: Seq<usize>) -> bool {
    forall|s: int, e: int|
        0 <= s < e < path.len() ==> i64::MIN <= #[trigger] walk_cost(g, path, s, e) <= i64::MAX
}

/// The position pairs `(s, e)`, `s < e < len`, from `(s, e)` on: `s`
/// ascending, and for each `s`, `e` ascending.
pub open spec fn pairs_from(len: int, s: int, e: int) -> Seq<(int, int)>
    decreases len - s, len - e,
{
    if s + 1 >= len {
        Seq::empty()
    } else if e >= len {
        pairs_from(len, s + 1, s + 2)
    } else {
        seq![(s, e)] + pairs_from(len, s, e + 1)
    }
}

/// What is reported for the sub-walk `path[p.0..=p.1]`: its first node, its
/// last node and its cost.
pub open spec fn sub_path_item<G: ArcCost>(g: &G, path: Seq<usize>, p: (int, int)) -> (
    usize,
    usize,
    i64,
) {
    (path[p.0], path[p.1], walk_cost(g, path, p.0, p.1) as i64)
}

/// The cost of every sub-walk of `path` with at least one arc, in the order
/// of [`pairs_from`].
pub open spec fn sub_path_costs<G: ArcCost>(g: &G, path: Seq<usize>) -> Seq<(usize, usize, i64)> {
    pairs_from(path.len() as int, 0, 1).map_values(|p: (int, int)| sub_path_item(g, path, p))
}

/// The consecutive pairs `(items[k], items[k + 1])` of a sequence.
pub open spec fn successive_pairs(items: Seq<usize>) -> Seq<(usize, usize)> {
    if items.len() < 2 {
        Seq::empty()
    } else {
        Seq::new((items.len() - 1) as nat, |k: int| (items[k], items[k + 1]))
    }
}

/// Yields the consecutive pairs of a sequence of nodes: the arcs of a walk.
pub struct SuccessorIterator<'a> {
    items: &'a [usize],
    pos: usize,
}

impl<'a> SuccessorIterator<'a> {
    pub closed spec fn spec_items(&self) -> Seq<usize> {
        self.items@
    }

    pub closed spec fn spec_pos(&self) -> int {
        self.pos as int
    }

    /// The pairs not yet yielded.
    pub closed spec fn remaining(&self) -> Seq<(usize, usize)> {
        successive_pairs(self.items@).subrange(
            if self.pos <= successive_pairs(self.items@).len() {
                self.pos as int
            } else {
                successive_pairs(self.items@).len() as int
            },
            successive_pairs(self.items@).len() as int,
        )
    }

    pub fn new(items: &'a [usize]) -> (r: Self)
        ensures
            r.remaining() == successive_pairs(items@),
    {
        let r = SuccessorIterator { items, pos: 0 };
        proof {
            assert(r.remaining() =~= successive_pairs(items@));
        }
        r
    }

    /// Starts at the pair `(items[pos], items[pos + 1])`.
    fn starting_at(items: &'a [usize], pos: usize) -> (r: Self)
        ensures
            r.items == items,
            r.pos == pos,
    {
        SuccessorIterator { items, pos }
    }

    /// The next pair, or `None` when all have been yielded.
    pub fn next(&mut self) -> (r: Option<(usize, usize)>)
        ensures
            match r {
                Some(p) => old(self).remaining() == seq![p] + final(self).remaining(),
                None => old(self).remaining().len() == 0 && final(self).remaining().len() == 0,
            },
            final(self).spec_items() == old(self).spec_items(),
            r is Some ==> final(self).spec_pos() == old(self).spec_pos() + 1 && r == Some(
                (
                    old(self).spec_items()[old(self).spec_pos()],
                    old(self).spec_items()[old(self).spec_pos() + 1],
                ),
            ),
            r is None ==> final(self).spec_pos() == old(self).spec_pos() && old(self).spec_pos()
                + 1 >= old(self).spec_items().len(),
    {
        if self.items.len() >= 1 && self.pos < self.items.len() - 1 {
            let p = (self.items[self.pos], self.items[self.pos + 1]);
            let ghost pre = self.remaining();
            self.pos = self.pos + 1;
            proof {
                assert(pre =~= seq![p] + self.remaining());
            }
            Some(p)
        } else {
            None
        }
    }
}

/// Enumerates, for every sub-walk `path[s..=e]` with `s < e`, the triple
/// `(path[s], path[e], cost)`, `s` ascending and for each `s`, `e` ascending.
/// The cost accumulates one arc at a time and restarts at zero with each `s`.
pub struct AllSubPathCost<'a, G: ArcCost> {
    curr: usize,
    weight: i64,
    graph: &'a G,
    path: &'a [usize],
    succ_iter: SuccessorIterator<'a>,
}

impl<'a, G: ArcCost> AllSubPathCost<'a, G> {
    /// The position bookkeeping: the next arc considered is
    /// `path[pos] -> path[pos + 1]`, on the sub-walks that start at `curr`.
    closed spec fn positions_ok(&self) -> bool {
        &&& self.succ_iter.items@ == self.path@
        &&& self.curr <= self.succ_iter.pos
        &&& self.succ_iter.pos < self.path@.len() || self.path@.len() == 0 && self.succ_iter.pos == 0
        &&& walk_exists(self.graph, self.path@)
        &&& costs_fit(self.graph, self.path@)
    }

    pub closed spec fn wf(&self) -> bool {
        &&& self.positions_ok()
        &&& self.curr + 1 < self.path@.len() ==> self.weight == walk_cost(
            self.graph,
            self.path@,
            self.curr as int,
            self.succ_iter.pos as int,
        )
    }

    /// The triples not yet yielded.
    pub closed spec fn remaining(&self) -> Seq<(usize, usize, i64)> {
        pairs_from(
            self.path@.len() as int,
            self.curr as int,
            self.succ_iter.pos + 1,
        ).map_values(|p: (int, int)| sub_path_item(self.graph, self.path@, p))
    }

    /// Starts the enumeration over the walk `path` on `g`. Each step of the
    /// walk must be an arc of `g`.
    pub fn new(g: &'a G, path: &'a [usize]) -> (r: Self)
        requires
            walk_exists(g, path@),
            costs_fit(g, path@),
        ensures
            r.wf(),
            r.remaining() == sub_path_costs(g, path@),
    {
        let succ_iter = SuccessorIterator::starting_at(path, 0);
        AllSubPathCost { curr: 0, graph: g, path, weight: 0, succ_iter }
    }

    fn step_next_node(&mut self) -> (r: Option<(usize, usize)>)
        requires
            old(self).wf(),
            old(self).succ_iter.pos + 1 >= old(self).path@.len(),
        ensures
            final(self).positions_ok(),
            final(self).graph == old(self).graph,
            final(self).path@ == old(self).path@,
            r is None ==> final(self).wf() && old(self).remaining().len() == 0
                && final(self).remaining().len() == 0,
            r matches Some(p) ==> {
                let c = final(self).curr as int;
                let e = final(self).succ_iter.pos as int;
                &&& c < e < final(self).path@.len()
                &&& p == (final(self).path@[e - 1], final(self).path@[e])
                &&& final(self).weight == walk_cost(final(self).graph, final(self).path@, c, e - 1)
                &&& old(self).remaining() == seq![
                    sub_path_item(final(self).graph, final(self).path@, (c, e)),
                ] + final(self).remaining()
            },
    {
        if self.path.len() == 0 || self.curr >= self.path.len() - 1 {
            return None;
        }
        self.curr = self.curr + 1;
        self.succ_iter = SuccessorIterator::starting_at(self.path, self.curr);
        self.weight = 0;
        let r = self.succ_iter.next();
        proof {
            let len = self.path@.len() as int;
            let c = self.curr as int;
            assert(pairs_from(len, c - 1, len) == pairs_from(len, c, c + 1));
            if r is Some {
                assert(pairs_from(len, c, c + 1) == seq![(c, c + 1)] + pairs_from(len, c, c + 2));
                assert(self.remaining() == pairs_from(len, c, c + 2).map_values(
                    |p: (int, int)| sub_path_item(self.graph, self.path@, p),
                ));
                assert(old(self).remaining() =~= seq![
                    sub_path_item(self.graph, self.path@, (c, c + 1)),
                ] + self.remaining());
            }
        }
        r
    }

    fn get_next_arc(&mut self) -> (r: Option<(usize, usize)>)
        requires
            old(self).wf(),
        ensures
            final(self).positions_ok(),
            final(self).graph == old(self).graph,
            final(self).path@ == old(self).path@,
            r is None ==> final(self).wf() && old(self).remaining().len() == 0
                && final(self).remaining().len() == 0,
            r matches Some(p) ==> {
                let c = final(self).curr as int;
                let e = final(self).succ_iter.pos as int;
                &&& c < e < final(self).path@.len()
                &&& p == (final(self).path@[e - 1], final(self).path@[e])
                &&& final(self).weight == walk_cost(final(self).graph, final(self).path@, c, e - 1)
                &&& old(self).remaining() == seq![
                    sub_path_item(final(self).graph, final(self).path@, (c, e)),
                ] + final(self).remaining()
            },
    {
        if let Some(next) = self.succ_iter.next() {
            proof {
                let len = self.path@.len() as int;
                let c = self.curr as int;
                let e = self.succ_iter.pos as int;
                assert(pairs_from(len, c, e) == seq![(c, e)] + pairs_from(len, c, e + 1));
                assert(old(self).remaining() =~= seq![
                    sub_path_item(self.graph, self.path@, (c, e)),
                ] + self.remaining());
            }
            Some(next)
        } else {
            self.step_next_node()
        }
    }

    /// The next triple, or `None` when all have been yielded.
    pub fn next(&mut self) -> (r: Option<(usize, usize, i64)>)
        requires
            old(self).wf(),
        ensures
            final(self).wf(),
            match r {
                Some(x) => old(self).remaining() == seq![x] + final(self).remaining(),
                None => old(self).remaining().len() == 0 && final(self).remaining().len() == 0,
            },
    {
        let (src, dst) = match self.get_next_arc() {
            Some(arc) => arc,
            None => return None,
        };
        proof {
            let e = self.succ_iter.pos as int;
            let k = e - 1;
            assert(self.graph.spec_has_arc(self.path@[k], self.path@[k + 1]));
            assert(walk_cost(self.graph, self.path@, self.curr as int, e) == walk_cost(
                self.graph,
                self.path@,
                self.curr as int,
                e - 1,
            ) + self.graph.spec_cost(self.path@[e - 1], self.path@[e]) as int);
        }
        let w = self.graph.cost(src, dst);
        self.weight = self.weight + w;
        Some((self.path[self.curr], dst, self.weight))
    }
}

} // verus!
