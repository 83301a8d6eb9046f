//! A graph stored as one list of outgoing arcs per node.
use vstd::prelude::*;

use crate::graph::Graph;
use crate::math_graph::{
    arc_keys, arcs_within, build, decoded, inserted, lemma_inserted_step, symmetric_keys, prefers_compact, replay,
    Arcs, DecodeError, MathGraph, Nodes,
};
use crate::path_cost::ArcCost;
use crate::update_nodes::{apply_indexed, overlay, zeros, UpdateNodes};
use crate::visitor::GraphVisitor;
use crate::{empty_list_of_lists, GetGraphType, GraphType};

verus! {

/// The state of an [`AdjList`]: for each source node, its arc entries as
/// `(destination, weight)`, in insertion order.
pub struct SparseView {
    pub gtype: GraphType,
    pub nodes: Seq<i64>,
    pub lists: Seq<Seq<(usize, i64)>>,
    pub arc_count: nat,
}

impl SparseView {
    /// One list per node, and every entry's destination is a node.
    pub open spec fn shaped(self) -> bool {
        &&& self.nodes.len() <= usize::MAX
        &&& self.lists.len() == self.nodes.len()
        &&& forall|i: int, k: int|
            0 <= i < self.lists.len() && 0 <= k < self.lists[i].len() ==> (#[trigger] self.lists[i][k]).0
                < self.nodes.len()
    }

    /// In an undirected graph, every arc has an arc back.
    pub open spec fn mirrored(self) -> bool {
        self.gtype == GraphType::Undirect ==> forall|i: usize, j: usize| #[trigger]
            self.has_arc(i, j) ==> self.has_arc(j, i)
    }

    /// One list per node whose destinations are nodes, undirected arcs
    /// come back, and the arc count is the number of entries.
    pub open spec fn wf(self) -> bool {
        &&& self.shaped()
        &&& self.mirrored()
        &&& self.arc_count == self.arcs().len()
    }

    pub open spec fn empty(node_count: nat, gtype: GraphType) -> SparseView {
        SparseView {
            gtype,
            nodes: zeros(node_count),
            lists: Seq::new(node_count, |i: int| Seq::<(usize, i64)>::empty()),
            arc_count: 0,
        }
    }

    /// One more entry, `dst` with weight `w`, at the end of the list of `src`.
    pub open spec fn with_entry(self, src: usize, dst: usize, w: i64) -> SparseView {
        SparseView {
            lists: self.lists.update(src as int, self.lists[src as int].push((dst, w))),
            arc_count: self.arc_count + 1,
            ..self
        }
    }

    /// Insertion of the arc `src -> dst`, mirrored when undirected.
    pub open spec fn add(self, src: usize, dst: usize, w: i64) -> SparseView {
        match self.gtype {
            GraphType::Direct => self.with_entry(src, dst, w),
            GraphType::Undirect => self.with_entry(src, dst, w).with_entry(dst, src, w),
        }
    }

    pub open spec fn has_arc(self, src: usize, dst: usize) -> bool {
        &&& src < self.lists.len()
        &&& exists|k: int|
            0 <= k < self.lists[src as int].len() && (#[trigger] self.lists[src as int][k]).0 == dst
    }

    /// The entries of one list as arcs `(src, destination, weight)`.
    pub open spec fn row_arcs(src: usize, list: Seq<(usize, i64)>) -> Seq<(usize, usize, i64)> {
        list.map_values(|e: (usize, i64)| (src, e.0, e.1))
    }

    /// The arcs of the first `rows` lists, list after list.
    pub open spec fn arcs_upto(self, rows: nat) -> Seq<(usize, usize, i64)>
        decreases rows,
    {
        if rows == 0 {
            Seq::empty()
        } else {
            self.arcs_upto((rows - 1) as nat) + Self::row_arcs(
                (rows - 1) as usize,
                self.lists[rows - 1],
            )
        }
    }

    /// All stored arcs, in visiting order.
    pub open spec fn arcs(self) -> Seq<(usize, usize, i64)> {
        self.arcs_upto(self.lists.len())
    }

    /// The stored arcs as a set: duplicates count once.
    pub open spec fn arc_set(self) -> Set<(usize, usize, i64)> {
        Set::new(
            |t: (usize, usize, i64)|
                t.0 < self.lists.len() && self.lists[t.0 as int].contains((t.1, t.2)),
        )
    }
}

/// The weight of the first entry of `list` whose destination is `dst`.
pub open spec fn first_weight(list: Seq<(usize, i64)>, dst: usize) -> i64
    decreases list.len(),
{
    if list.len() == 0 {
        0
    } else if list[0].0 == dst {
        list[0].1
    } else {
        first_weight(list.drop_first(), dst)
    }
}

/// One entry of an adjacency list: the destination and the weight of an arc.
#[derive(Clone, Copy, PartialEq, Eq, Debug)]
pub struct AdjArc {
    weight: i64,
    next: usize,
}

impl AdjArc {
    pub closed spec fn spec_weight(&self) -> i64 {
        self.weight
    }

    pub closed spec fn spec_next(&self) -> usize {
        self.next
    }

    pub fn new(weight: i64, next: usize) -> (r: Self)
        ensures
            r.spec_weight() == weight,
            r.spec_next() == next,
    {
        AdjArc { weight, next }
    }

    #[inline]
    pub fn weight(&self) -> (r: i64)
        ensures
            r == self.spec_weight(),
    {
        self.weight
    }

    #[inline]
    pub fn next(&self) -> (r: usize)
        ensures
            r == self.spec_next(),
    {
        self.next
    }
}

spec fn entries(l: Seq<AdjArc>) -> Seq<(usize, i64)> {
    l.map_values(|a: AdjArc| (a.next, a.weight))
}

/// A graph stored as one list of outgoing arcs per node. Inserting an arc
/// always appends an entry, so inserting the same arc twice makes two
/// parallel entries and counts two arcs.
#[derive(Clone, PartialEq, Debug)]
pub struct AdjList {
    arc_count: usize,
    gtype: GraphType,
    nodes: Vec<i64>,
    lists: Vec<Vec<AdjArc>>,
}

impl View for AdjList {
    type V = SparseView;

    closed spec fn view(&self) -> SparseView {
        SparseView {
            gtype: self.gtype,
            nodes: self.nodes@,
            lists: self.lists@.map_values(|l: Vec<AdjArc>| entries(l@)),
            arc_count: self.arc_count as nat,
        }
    }
}

proof fn lemma_with_entry_shaped(v: SparseView, src: usize, dst: usize, w: i64)
    requires
        v.shaped(),
        src < v.nodes.len(),
        dst < v.nodes.len(),
    ensures
        v.with_entry(src, dst, w).shaped(),
{
    let u = v.with_entry(src, dst, w);
    assert forall|i: int, k: int|
        0 <= i < u.lists.len() && 0 <= k < u.lists[i].len() implies (#[trigger] u.lists[i][k]).0
        < u.nodes.len() by {
        if i != src {
            assert(u.lists[i][k] == v.lists[i][k]);
        } else if k < v.lists[i].len() {
            assert(u.lists[i][k] == v.lists[i][k]);
        }
    }
}

proof fn lemma_with_entry_has_arc(v: SparseView, src: usize, dst: usize, w: i64, i: usize, j: usize)
    requires
        src < v.lists.len(),
    ensures
        v.with_entry(src, dst, w).has_arc(i, j) <==> (v.has_arc(i, j) || (i == src && j == dst)),
{
    let u = v.with_entry(src, dst, w);
    if i == src {
        let l = v.lists[i as int];
        if u.has_arc(i, j) {
            let k = choose|k: int| 0 <= k < u.lists[i as int].len() && (#[trigger] u.lists[i as int][k]).0 == j;
            if k < l.len() {
                assert(l[k].0 == j);
            }
        }
        if v.has_arc(i, j) {
            let k = choose|k: int| 0 <= k < l.len() && (#[trigger] l[k]).0 == j;
            assert(u.lists[i as int][k].0 == j);
        }
        if j == dst {
            assert(u.lists[i as int][l.len() as int].0 == j);
        }
    } else if i < v.lists.len() {
        assert(u.lists[i as int] == v.lists[i as int]);
    }
}

/// Inserting an arc keeps an adjacency-list graph well formed.
proof fn lemma_add_wf(v: SparseView, src: usize, dst: usize, w: i64)
    requires
        v.wf(),
        src < v.nodes.len(),
        dst < v.nodes.len(),
    ensures
        v.add(src, dst, w).wf(),
{
    let once = v.with_entry(src, dst, w);
    lemma_with_entry_shaped(v, src, dst, w);
    lemma_arcs_len_with_entry(v, src, dst, w, v.lists.len());
    if v.gtype == GraphType::Undirect {
        let twice = once.with_entry(dst, src, w);
        lemma_with_entry_shaped(once, dst, src, w);
        lemma_arcs_len_with_entry(once, dst, src, w, once.lists.len());
        assert forall|i: usize, j: usize| #[trigger] twice.has_arc(i, j) implies twice.has_arc(j, i) by {
            lemma_with_entry_has_arc(v, src, dst, w, i, j);
            lemma_with_entry_has_arc(once, dst, src, w, i, j);
            lemma_with_entry_has_arc(v, src, dst, w, j, i);
            lemma_with_entry_has_arc(once, dst, src, w, j, i);
        }
    }
}

/// The number of arcs of the first `rows` lists depends only on the lengths
/// of those lists.
proof fn lemma_arcs_len_same(a: SparseView, b: SparseView, rows: nat)
    requires
        rows <= a.lists.len(),
        rows <= b.lists.len(),
        forall|i: int| 0 <= i < rows ==> (#[trigger] a.lists[i]).len() == b.lists[i].len(),
    ensures
        a.arcs_upto(rows).len() == b.arcs_upto(rows).len(),
    decreases rows,
{
    if rows > 0 {
        lemma_arcs_len_same(a, b, (rows - 1) as nat);
        assert(a.lists[rows - 1].len() == b.lists[rows - 1].len());
    }
}

/// One more entry in the list of `src` is one more arc among the lists
/// that include it.
proof fn lemma_arcs_len_with_entry(v: SparseView, src: usize, dst: usize, w: i64, rows: nat)
    requires
        rows <= v.lists.len(),
        src < v.lists.len(),
    ensures
        v.with_entry(src, dst, w).arcs_upto(rows).len() == v.arcs_upto(rows).len() + if src < rows {
            1int
        } else {
            0int
        },
    decreases rows,
{
    if rows > 0 {
        lemma_arcs_len_with_entry(v, src, dst, w, (rows - 1) as nat);
    }
}

/// Lists without entries hold no arcs.
pub proof fn lemma_arcs_len_empty(v: SparseView, rows: nat)
    requires
        rows <= v.lists.len(),
        forall|i: int| 0 <= i < rows ==> (#[trigger] v.lists[i]).len() == 0,
    ensures
        v.arcs_upto(rows).len() == 0,
    decreases rows,
{
    if rows > 0 {
        lemma_arcs_len_empty(v, (rows - 1) as nat);
    }
}

/// Two graphs whose lists have the same destinations join the same nodes.
proof fn lemma_same_ends(a: SparseView, b: SparseView)
    requires
        a.lists.len() == b.lists.len(),
        forall|i: int| 0 <= i < a.lists.len() ==> (#[trigger] a.lists[i]).len() == b.lists[i].len(),
        forall|i: int, k: int|
            0 <= i < a.lists.len() && 0 <= k < a.lists[i].len() ==> (#[trigger] a.lists[i][k]).0
                == b.lists[i][k].0,
    ensures
        forall|i: usize, j: usize|
            #![trigger a.has_arc(i, j)]
            #![trigger b.has_arc(i, j)]
            a.has_arc(i, j) == b.has_arc(i, j),
        a.gtype == b.gtype && a.mirrored() ==> b.mirrored(),
        a.arcs().len() == b.arcs().len(),
{
    lemma_arcs_len_same(a, b, a.lists.len());
    assert forall|i: usize, j: usize| #[trigger] a.has_arc(i, j) == b.has_arc(i, j) by {
        if a.has_arc(i, j) {
            let k = choose|k: int| 0 <= k < a.lists[i as int].len() && (#[trigger] a.lists[i as int][k]).0 == j;
            assert(b.lists[i as int][k].0 == j);
        }
        if b.has_arc(i, j) {
            let k = choose|k: int| 0 <= k < b.lists[i as int].len() && (#[trigger] b.lists[i as int][k]).0 == j;
            assert(a.lists[i as int][k].0 == j);
        }
    }
    if a.gtype == b.gtype && a.mirrored() && b.gtype == GraphType::Undirect {
        assert forall|i: usize, j: usize| #[trigger] b.has_arc(i, j) implies b.has_arc(j, i) by {
            assert(a.has_arc(i, j));
            assert(a.has_arc(j, i));
        }
    }
}

impl AdjList {
    pub fn new_direct(node_count: usize) -> (r: Self)
        ensures
            r@ == SparseView::empty(node_count as nat, GraphType::Direct),
            r@.wf(),
    {
        <Self as Graph>::new(node_count, GraphType::Direct)
    }

    pub fn new_undirect(node_count: usize) -> (r: Self)
        ensures
            r@ == SparseView::empty(node_count as nat, GraphType::Undirect),
            r@.wf(),
    {
        <Self as Graph>::new(node_count, GraphType::Undirect)
    }

    fn make_arc(&mut self, src: usize, dst: usize, weight: i64)
        requires
            src < old(self).lists@.len(),
            old(self).arc_count < usize::MAX,
        ensures
            final(self)@ == old(self)@.with_entry(src, dst, weight),
            final(self).lists@.len() == old(self).lists@.len(),
            final(self).arc_count == old(self).arc_count + 1,
    {
        let ghost old_l = self.lists@[src as int]@;
        let mut l: Vec<AdjArc> = Vec::new();
        self.lists.set_and_swap(src, &mut l);
        l.push(AdjArc::new(weight, dst));
        self.lists.set_and_swap(src, &mut l);
        self.arc_count = self.arc_count + 1;
        proof {
            let pre = old(self)@;
            assert(pre.lists[src as int] == entries(old_l));
            assert(entries(self.lists@[src as int]@) =~= entries(old_l).push((dst, weight)));
            assert(self@.lists =~= pre.lists.update(src as int, pre.lists[src as int].push((dst, weight))));
        }
    }

    /// The nodes as `(index, weight)`, by index.
    pub fn node_iterator(&self) -> (r: Vec<(usize, i64)>)
        ensures
            r@ == Seq::new(self@.nodes.len(), |i: int| (i as usize, self@.nodes[i])),
    {
        let mut r: Vec<(usize, i64)> = Vec::new();
        let mut i: usize = 0;
        while i < self.nodes.len()
            invariant
                i <= self.nodes@.len(),
                r@ == Seq::new(i as nat, |k: int| (k as usize, self@.nodes[k])),
            decreases self.nodes@.len() - i,
        {
            r.push((i, self.nodes[i]));
            i += 1;
            proof {
                assert(r@ =~= Seq::new(i as nat, |k: int| (k as usize, self@.nodes[k])));
            }
        }
        r
    }

    /// The arcs leaving `node` as `(node, destination, weight)`, in insertion
    /// order.
    pub fn successor_iterator(&self, node: usize) -> (r: Vec<(usize, usize, i64)>)
        requires
            node < self@.lists.len(),
        ensures
            r@ == SparseView::row_arcs(node, self@.lists[node as int]),
    {
        let list = &self.lists[node];
        let ghost row = SparseView::row_arcs(node, self@.lists[node as int]);
        let mut r: Vec<(usize, usize, i64)> = Vec::new();
        let mut k: usize = 0;
        while k < list.len()
            invariant
                k <= list@.len(),
                row.len() == list@.len(),
                row == SparseView::row_arcs(node, entries(list@)),
                r@ == row.take(k as int),
            decreases list@.len() - k,
        {
            let a = list[k];
            r.push((node, a.next, a.weight));
            k += 1;
            proof {
                assert(r@ =~= row.take(k as int));
            }
        }
        proof {
            assert(row.take(k as int) =~= row);
        }
        r
    }

    /// All stored arcs as `(source, destination, weight)`: list after list,
    /// each in insertion order.
    pub fn arc_iterator(&self) -> (r: Vec<(usize, usize, i64)>)
        ensures
            r@ == self@.arcs(),
    {
        let mut r: Vec<(usize, usize, i64)> = Vec::new();
        let n = self.lists.len();
        let mut i: usize = 0;
        while i < n
            invariant
                i <= n,
                n == self@.lists.len(),
                r@ == self@.arcs_upto(i as nat),
            decreases n - i,
        {
            let row = self.successor_iterator(i);
            let ghost before = r@;
            let mut k: usize = 0;
            while k < row.len()
                invariant
                    k <= row@.len(),
                    r@ == before + row@.take(k as int),
                decreases row@.len() - k,
            {
                r.push(row[k]);
                k += 1;
                proof {
                    assert(r@ =~= before + row@.take(k as int));
                }
            }
            proof {
                assert(row@.take(k as int) =~= row@);
            }
            i += 1;
        }
        r
    }
}

impl Graph for AdjList {
    open spec fn spec_wf(v: SparseView) -> bool {
        v.wf()
    }

    open spec fn spec_nodes(v: SparseView) -> Seq<i64> {
        v.nodes
    }

    open spec fn spec_kind(v: SparseView) -> GraphType {
        v.gtype
    }

    open spec fn spec_arc_count(v: SparseView) -> nat {
        v.arc_count
    }

    open spec fn spec_can_allocate(node_count: nat) -> bool {
        true
    }

    open spec fn spec_new(node_count: nat, gtype: GraphType) -> SparseView {
        SparseView::empty(node_count, gtype)
    }

    open spec fn spec_add(v: SparseView, src: usize, dst: usize, w: i64) -> SparseView {
        v.add(src, dst, w)
    }

    open spec fn spec_set_nodes(v: SparseView, nodes: Seq<i64>) -> SparseView {
        SparseView { nodes, ..v }
    }

    open spec fn spec_reweighted(
        before: SparseView,
        after: SparseView,
        rel: spec_fn(usize, usize, i64, i64) -> bool,
    ) -> bool {
        &&& after.gtype == before.gtype
        &&& after.nodes == before.nodes
        &&& after.arc_count == before.arc_count
        &&& after.lists.len() == before.lists.len()
        &&& forall|i: int|
            0 <= i < before.lists.len() ==> (#[trigger] after.lists[i]).len() == before.lists[i].len()
        &&& forall|i: int, k: int|
            0 <= i < before.lists.len() && 0 <= k < before.lists[i].len() ==> {
                &&& (#[trigger] after.lists[i][k]).0 == before.lists[i][k].0
                &&& rel(
                    i as usize,
                    before.lists[i][k].0,
                    before.lists[i][k].1,
                    after.lists[i][k].1,
                )
            }
    }

    fn new(node_count: usize, gtype: GraphType) -> (r: Self) {
        let nodes = vec![0i64; node_count];
        let lists: Vec<Vec<AdjArc>> = empty_list_of_lists(node_count);
        let r = AdjList { arc_count: 0, gtype, nodes, lists };
        proof {
            lemma_arcs_len_empty(r@, node_count as nat);
            let e = SparseView::empty(node_count as nat, gtype);
            assert(r@.nodes =~= e.nodes);
            assert(r@.lists =~= e.lists) by {
                assert forall|i: int| 0 <= i < node_count implies r@.lists[i] =~= e.lists[i] by {
                    assert(lists@[i]@.len() == 0);
                }
            }
        }
        r
    }

    fn add_new_default_arc(&mut self, src: usize, dst: usize) {
        self.add_new_arc(src, dst, 0);
    }

    fn add_new_arc(&mut self, src: usize, dst: usize, weight: i64) {
        match self.gtype {
            GraphType::Direct => {
                self.make_arc(src, dst, weight);
            },
            GraphType::Undirect => {
                self.make_arc(src, dst, weight);
                self.make_arc(dst, src, weight);
            },
        }
        proof {
            lemma_add_wf(old(self)@, src, dst, weight);
        }
    }

    fn update_all_arcs_weight<F: Fn(usize, usize, i64) -> i64>(&mut self, f: F) {
        let ghost pre = old(self)@;
        let ghost pre_lists = old(self).lists@;
        let n = self.lists.len();
        let mut i: usize = 0;
        while i < n
            invariant
                i <= n,
                n == self.lists@.len(),
                n == pre_lists.len(),
                pre == old(self)@,
                pre_lists == old(self).lists@,
                self.gtype == old(self).gtype,
                self.nodes@ == old(self).nodes@,
                self.arc_count == old(self).arc_count,
                forall|i: usize, j: usize, w: i64| f.requires((i, j, w)),
                forall|r: int| i <= r < n ==> #[trigger] self.lists@[r] == pre_lists[r],
                forall|r: int| 0 <= r < i ==> (#[trigger] self.lists@[r])@.len() == pre_lists[r]@.len(),
                forall|r: int, k: int|
                    0 <= r < i && 0 <= k < pre_lists[r]@.len() ==> {
                        &&& (#[trigger] self.lists@[r]@[k]).next == pre_lists[r]@[k].next
                        &&& f.ensures(
                            (r as usize, pre_lists[r]@[k].next, pre_lists[r]@[k].weight),
                            self.lists@[r]@[k].weight,
                        )
                    },
            decreases n - i,
        {
            let mut l: Vec<AdjArc> = Vec::new();
            self.lists.set_and_swap(i, &mut l);
            let ghost frozen = self.lists@;
            let ghost orig = l@;
            let m = l.len();
            let mut k: usize = 0;
            while k < m
                invariant
                    k <= m,
                    m == l@.len(),
                    orig.len() == m,
                    orig == pre_lists[i as int]@,
                    self.lists@ == frozen,
                    forall|i: usize, j: usize, w: i64| f.requires((i, j, w)),
                    forall|j: int| k <= j < m ==> #[trigger] l@[j] == orig[j],
                    forall|j: int|
                        0 <= j < k ==> {
                            &&& (#[trigger] l@[j]).next == orig[j].next
                            &&& f.ensures((i, orig[j].next, orig[j].weight), l@[j].weight)
                        },
                decreases m - k,
            {
                let a = l[k];
                let w = f(i, a.next, a.weight);
                l.set(k, AdjArc::new(w, a.next));
                k += 1;
            }
            self.lists.set_and_swap(i, &mut l);
            i += 1;
        }
        proof {
            let post = self@;
            assert forall|r: int, k: int|
                0 <= r < pre.lists.len() && 0 <= k < pre.lists[r].len() implies {
                &&& (#[trigger] post.lists[r][k]).0 == pre.lists[r][k].0
                &&& f.ensures(
                    (r as usize, pre.lists[r][k].0, pre.lists[r][k].1),
                    post.lists[r][k].1,
                )
            } by {
                assert(self.lists@[r]@[k].next == pre_lists[r]@[k].next);
            }
            assert forall|r: int, k: int|
                0 <= r < post.lists.len() && 0 <= k < post.lists[r].len() implies (
                #[trigger] post.lists[r][k]).0 < post.nodes.len() by {
                assert(self.lists@[r]@[k].next == pre_lists[r]@[k].next);
                assert(pre.lists[r][k].0 < pre.nodes.len());
            }
            assert forall|r: int| 0 <= r < pre.lists.len() implies (#[trigger] pre.lists[r]).len()
                == post.lists[r].len() by {
                assert(self.lists@[r]@.len() == pre_lists[r]@.len());
            }
            assert forall|r: int, k: int|
                0 <= r < pre.lists.len() && 0 <= k < pre.lists[r].len() implies (
                #[trigger] pre.lists[r][k]).0 == post.lists[r][k].0 by {
                assert(self.lists@[r]@[k].next == pre_lists[r]@[k].next);
            }
            lemma_same_ends(pre, post);
        }
    }

    fn update_all_nodes_weight<F: Fn(usize, i64) -> i64>(&mut self, f: F) {
        let n = self.nodes.len();
        let mut i: usize = 0;
        while i < n
            invariant
                i <= n,
                n == self.nodes@.len(),
                n == old(self).nodes@.len(),
                self.gtype == old(self).gtype,
                self.lists@ == old(self).lists@,
                self.arc_count == old(self).arc_count,
                forall|i: usize, w: i64| f.requires((i, w)),
                forall|r: int| i <= r < n ==> #[trigger] self.nodes@[r] == old(self).nodes@[r],
                forall|r: int|
                    0 <= r < i ==> f.ensures(
                        (r as usize, old(self).nodes@[r]),
                        #[trigger] self.nodes@[r],
                    ),
            decreases n - i,
        {
            let w = f(i, self.nodes[i]);
            self.nodes.set(i, w);
            i += 1;
        }
        proof {
            assert(self@ == (SparseView { nodes: self@.nodes, ..old(self)@ }));
            lemma_same_ends(old(self)@, self@);
        }
    }
}

impl UpdateNodes for AdjList {
    fn update_all_nodes_weight_iter(&mut self, weights: &[i64]) {
        let n = self.nodes.len();
        let mut i: usize = 0;
        while i < n && i < weights.len()
            invariant
                i <= n,
                i <= weights@.len(),
                n == self.nodes@.len(),
                self.gtype == old(self).gtype,
                self.lists@ == old(self).lists@,
                self.arc_count == old(self).arc_count,
                self.nodes@ == Seq::new(
                    n as nat,
                    |r: int| if r < i { weights@[r] } else { old(self).nodes@[r] },
                ),
            decreases n - i,
        {
            self.nodes.set(i, weights[i]);
            i += 1;
            proof {
                assert(self.nodes@ =~= Seq::new(
                    n as nat,
                    |r: int| if r < i { weights@[r] } else { old(self).nodes@[r] },
                ));
            }
        }
        proof {
            assert forall|r: int| 0 <= r < n implies self.nodes@[r] == overlay(old(self).nodes@, weights@)[r] by {
                if r < weights@.len() {
                    assert(r < i);
                }
            }
            assert(self.nodes@ =~= overlay(old(self).nodes@, weights@));
            assert(self@ == (SparseView { nodes: self@.nodes, ..old(self)@ }));
            lemma_same_ends(old(self)@, self@);
        }
    }

    fn update_indexed_nodes_weight(&mut self, pairs: &[(usize, i64)]) {
        let mut k: usize = 0;
        while k < pairs.len()
            invariant
                k <= pairs@.len(),
                self.gtype == old(self).gtype,
                self.lists@ == old(self).lists@,
                self.arc_count == old(self).arc_count,
                forall|j: int| 0 <= j < pairs@.len() ==> (#[trigger] pairs@[j]).0 < old(self).nodes@.len(),
                self.nodes@ == apply_indexed(old(self).nodes@, pairs@.take(k as int)),
            decreases pairs@.len() - k,
        {
            let (i, w) = pairs[k];
            proof {
                crate::update_nodes::lemma_apply_indexed_len(old(self).nodes@, pairs@.take(k as int));
                assert(pairs@.take(k + 1).drop_last() =~= pairs@.take(k as int));
            }
            self.nodes.set(i, w);
            k += 1;
        }
        proof {
            assert(pairs@.take(k as int) =~= pairs@);
            crate::update_nodes::lemma_apply_indexed_len(old(self).nodes@, pairs@);
            assert(self@ == (SparseView { nodes: self@.nodes, ..old(self)@ }));
            lemma_same_ends(old(self)@, self@);
        }
    }
}

impl GetGraphType for AdjList {
    open spec fn spec_graph_type(&self) -> GraphType {
        self@.gtype
    }

    fn graph_type(&self) -> (r: GraphType) {
        self.gtype
    }
}

impl GraphVisitor for AdjList {
    open spec fn spec_nodes_visited(&self) -> Seq<(usize, i64)> {
        Seq::new(self@.nodes.len(), |i: int| (i as usize, self@.nodes[i]))
    }

    open spec fn spec_arcs_visited(&self) -> Seq<(usize, usize, i64)> {
        self@.arcs()
    }

    open spec fn spec_counted_arcs(&self) -> nat {
        self@.arc_count
    }

    open spec fn well_formed(&self) -> bool {
        self@.wf()
    }

    fn node_entries(&self) -> (r: Vec<(usize, i64)>) {
        let r = self.node_iterator();
        proof {
            assert(r@ =~= self.spec_nodes_visited());
        }
        r
    }

    fn arc_entries(&self) -> (r: Vec<(usize, usize, i64)>) {
        let r = self.arc_iterator();
        proof {
            assert(r@ =~= self.spec_arcs_visited());
        }
        r
    }

    fn node_count(&self) -> (r: usize) {
        self.nodes.len()
    }

    fn arc_count(&self) -> (r: usize) {
        self.arc_count
    }
}

proof fn lemma_first_weight_skip(list: Seq<(usize, i64)>, k: int, dst: usize)
    requires
        0 <= k < list.len(),
        list[k].0 != dst,
    ensures
        first_weight(list.subrange(k, list.len() as int), dst) == first_weight(
            list.subrange(k + 1, list.len() as int),
            dst,
        ),
{
    assert(list.subrange(k, list.len() as int).drop_first() =~= list.subrange(
        k + 1,
        list.len() as int,
    ));
}

impl ArcCost for AdjList {
    open spec fn spec_has_arc(&self, src: usize, dst: usize) -> bool {
        self@.has_arc(src, dst)
    }

    /// The weight of the first inserted entry for the arc.
    open spec fn spec_cost(&self, src: usize, dst: usize) -> i64 {
        first_weight(self@.lists[src as int], dst)
    }

    fn cost(&self, src: usize, dst: usize) -> (r: i64) {
        let list = &self.lists[src];
        let ghost l = self@.lists[src as int];
        let m = list.len();
        let mut k: usize = 0;
        proof {
            assert(l.subrange(0, l.len() as int) =~= l);
        }
        while list[k].next != dst
            invariant
                l == entries(list@),
                m == list@.len(),
                k < list@.len(),
                exists|j: int| k <= j < l.len() && (#[trigger] l[j]).0 == dst,
                first_weight(l, dst) == first_weight(l.subrange(k as int, l.len() as int), dst),
            decreases list@.len() - k,
        {
            proof {
                assert(l[k as int].0 != dst);
                let j = choose|j: int| k <= j < l.len() && (#[trigger] l[j]).0 == dst;
                assert(k < j);
                assert(l.len() == list@.len());
                lemma_first_weight_skip(l, k as int, dst);
            }
            k += 1;
        }
        proof {
            assert(l.subrange(k as int, l.len() as int)[0] == l[k as int]);
        }
        list[k].weight
    }
}


/// The arcs of one list, as `(src, destination, weight)`, are its entries.
proof fn lemma_row_arcs_members(src: usize, list: Seq<(usize, i64)>, t: (usize, usize, i64))
    ensures
        SparseView::row_arcs(src, list).contains(t) <==> (t.0 == src && list.contains((t.1, t.2))),
{
    let row = SparseView::row_arcs(src, list);
    if row.contains(t) {
        let k = choose|k: int| 0 <= k < row.len() && row[k] == t;
        assert(list[k] == (t.1, t.2));
    }
    if t.0 == src && list.contains((t.1, t.2)) {
        let k = choose|k: int| 0 <= k < list.len() && list[k] == (t.1, t.2);
        assert(row[k] == t);
    }
}

proof fn lemma_arcs_upto_members(v: SparseView, rows: nat, t: (usize, usize, i64))
    requires
        rows <= v.lists.len(),
        v.lists.len() <= usize::MAX,
    ensures
        v.arcs_upto(rows).contains(t) <==> (t.0 < rows && v.lists[t.0 as int].contains((t.1, t.2))),
    decreases rows,
{
    if rows > 0 {
        let i = (rows - 1) as usize;
        let prev = v.arcs_upto((rows - 1) as nat);
        let row = SparseView::row_arcs(i, v.lists[i as int]);
        let all = v.arcs_upto(rows);
        assert(all == prev + row);
        lemma_arcs_upto_members(v, (rows - 1) as nat, t);
        lemma_row_arcs_members(i, v.lists[i as int], t);
        if all.contains(t) {
            let k = choose|k: int| 0 <= k < all.len() && all[k] == t;
            if k < prev.len() {
                assert(prev[k] == t);
            } else {
                assert(row[k - prev.len()] == t);
            }
        }
        if prev.contains(t) {
            let k = choose|k: int| 0 <= k < prev.len() && prev[k] == t;
            assert(all[k] == t);
        }
        if row.contains(t) {
            let k = choose|k: int| 0 <= k < row.len() && row[k] == t;
            assert(all[prev.len() + k] == t);
        }
    }
}

/// The arcs visited are exactly the stored arcs, and their ends are nodes.
pub proof fn lemma_arcs_members(v: SparseView)
    requires
        v.wf(),
    ensures
        forall|t: (usize, usize, i64)| #[trigger] v.arcs().contains(t) <==> v.arc_set().contains(t),
        arcs_within(v.arcs(), v.nodes.len()),
{
    assert forall|t: (usize, usize, i64)| #[trigger] v.arcs().contains(t) <==> v.arc_set().contains(
        t,
    ) by {
        lemma_arcs_upto_members(v, v.lists.len(), t);
    }
    assert forall|k: int| 0 <= k < v.arcs().len() implies (#[trigger] v.arcs()[k]).0
        < v.nodes.len() && v.arcs()[k].1 < v.nodes.len() by {
        let t = v.arcs()[k];
        assert(v.arcs().contains(t));
        lemma_arcs_upto_members(v, v.lists.len(), t);
        let j = choose|j: int|
            0 <= j < v.lists[t.0 as int].len() && v.lists[t.0 as int][j] == (t.1, t.2);
        assert(v.lists[t.0 as int][j].0 < v.nodes.len());
    }
}

impl AdjList {
    /// The canonical form: the graph's type, its node weights as
    /// [`Nodes::new`] stores them, and every stored arc in visiting order.
    pub fn into_math_graph(self) -> (r: MathGraph)
        requires
            self@.wf(),
        ensures
            r.spec_graph_type() == self@.gtype,
            r.spec_nodes().spec_weights() == self@.nodes,
            r.spec_nodes().spec_count() == self@.nodes.len(),
            r.spec_nodes() is Compact <==> prefers_compact(self@.nodes),
            r.spec_arcs() is Weighted,
            r.spec_arcs().entries() == self@.arcs(),
            r.valid(),
    {
        proof {
            lemma_arcs_members(self@);
        }
        let arcs = Arcs::new_weighted(self.arc_iterator());
        let nodes = Nodes::new(self.nodes);
        MathGraph::new(nodes, arcs, self.gtype)
    }

    /// Rebuilds a graph from its canonical form: the node weights, then each
    /// arc replayed in order (for an undirected graph only from its smaller
    /// end). Fails, building nothing, on an index beyond the node count.
    pub fn from_math_graph(g: MathGraph) -> (r: Result<Self, DecodeError>)
        requires
            2 * g.spec_arcs().entries().len() <= usize::MAX,
        ensures
            r is Ok <==> g.valid(),
            r matches Ok(h) ==> h@ == decoded::<AdjList>(
                g.spec_graph_type(),
                g.spec_nodes().spec_weights(),
                g.spec_arcs().entries(),
            ) && h@.wf(),
            r matches Err(e) ==> e == if !g.spec_nodes().valid() {
                DecodeError::NodeIndexOutOfRange
            } else {
                DecodeError::ArcIndexOutOfRange
            },
    {
        build::<AdjList>(g)
    }
}


proof fn lemma_first_weight_push(l: Seq<(usize, i64)>, x: (usize, i64), dst: usize)
    requires
        exists|k: int| 0 <= k < l.len() && (#[trigger] l[k]).0 == dst,
    ensures
        first_weight(l.push(x), dst) == first_weight(l, dst),
    decreases l.len(),
{
    if l[0].0 != dst {
        let k = choose|k: int| 0 <= k < l.len() && (#[trigger] l[k]).0 == dst;
        assert(l.drop_first()[k - 1].0 == dst);
        assert(l.push(x).drop_first() =~= l.drop_first().push(x));
        lemma_first_weight_push(l.drop_first(), x, dst);
    }
}

/// Inserting an arc that an adjacency-list graph already holds appends one
/// more entry for it to the source's list and counts it again; a cost
/// lookup still returns the weight of the first entry.
pub proof fn lemma_reinsert_duplicates(g: SparseView, src: usize, dst: usize, w: i64)
    requires
        g.wf(),
        src < g.nodes.len(),
        dst < g.nodes.len(),
        g.has_arc(src, dst),
    ensures
        g.add(src, dst, w).arc_count == g.arc_count + if g.gtype == GraphType::Direct {
            1nat
        } else {
            2nat
        },
        g.add(src, dst, w).lists[src as int].subrange(0, g.lists[src as int].len() + 1int)
            == g.lists[src as int].push((dst, w)),
        first_weight(g.add(src, dst, w).lists[src as int], dst) == first_weight(
            g.lists[src as int],
            dst,
        ),
{
    let l = g.lists[src as int];
    let once = g.with_entry(src, dst, w);
    let k = choose|k: int| 0 <= k < l.len() && (#[trigger] l[k]).0 == dst;
    lemma_first_weight_push(l, (dst, w), dst);
    assert(once.lists[src as int] == l.push((dst, w)));
    assert(once.lists[src as int].subrange(0, l.len() + 1int) =~= l.push((dst, w)));
    if g.gtype == GraphType::Undirect {
        let twice = once.with_entry(dst, src, w);
        if src == dst {
            assert(l.push((dst, w))[k].0 == dst);
            lemma_first_weight_push(l.push((dst, w)), (src, w), dst);
            assert(twice.lists[src as int].subrange(0, l.len() + 1int) =~= l.push((dst, w)));
        } else {
            assert(twice.lists[src as int] == once.lists[src as int]);
        }
    }
}

/// In an undirected adjacency-list graph, inserting `src -> dst` with weight
/// `w` makes both `(src, dst, w)` and `(dst, src, w)` visited arcs.
pub proof fn lemma_undirected_insert_visible(g: SparseView, src: usize, dst: usize, w: i64)
    requires
        g.wf(),
        g.gtype == GraphType::Undirect,
        src < g.nodes.len(),
        dst < g.nodes.len(),
    ensures
        g.add(src, dst, w).arcs().contains((src, dst, w)),
        g.add(src, dst, w).arcs().contains((dst, src, w)),
{
    let once = g.with_entry(src, dst, w);
    let twice = once.with_entry(dst, src, w);
    lemma_add_wf(g, src, dst, w);
    lemma_arcs_members(twice);
    let ls = g.lists[src as int].len();
    assert(once.lists[src as int][ls as int] == (dst, w));
    assert(twice.lists[src as int][ls as int] == (dst, w));
    assert(twice.lists[src as int].contains((dst, w)));
    assert(twice.arc_set().contains((src, dst, w)));
    let ld = once.lists[dst as int].len();
    assert(twice.lists[dst as int][ld as int] == (src, w));
    assert(twice.lists[dst as int].contains((src, w)));
    assert(twice.arc_set().contains((dst, src, w)));
}


proof fn lemma_with_entry_set(v: SparseView, src: usize, dst: usize, w: i64)
    requires
        src < v.lists.len(),
    ensures
        v.with_entry(src, dst, w).arc_set() == v.arc_set().insert((src, dst, w)),
{
    let u = v.with_entry(src, dst, w);
    let l = v.lists[src as int];
    assert forall|t: (usize, usize, i64)| #[trigger] u.arc_set().contains(t) <==> v.arc_set().insert(
        (src, dst, w),
    ).contains(t) by {
        if t.0 == src {
            if u.lists[src as int].contains((t.1, t.2)) {
                let k = choose|k: int|
                    0 <= k < u.lists[src as int].len() && u.lists[src as int][k] == (t.1, t.2);
                if k < l.len() {
                    assert(l[k] == (t.1, t.2));
                }
            }
            if l.contains((t.1, t.2)) {
                let k = choose|k: int| 0 <= k < l.len() && l[k] == (t.1, t.2);
                assert(u.lists[src as int][k] == (t.1, t.2));
            }
            if t == (src, dst, w) {
                assert(u.lists[src as int][l.len() as int] == (dst, w));
            }
        }
    }
    assert(u.arc_set() =~= v.arc_set().insert((src, dst, w)));
}

/// Replaying arcs on an adjacency-list graph adds exactly the arcs that
/// [`inserted`] names.
pub proof fn lemma_replay_set(v: SparseView, gt: GraphType, arcs: Seq<(usize, usize, i64)>)
    requires
        v.wf(),
        v.gtype == gt,
        arcs_within(arcs, v.nodes.len()),
    ensures
        replay::<AdjList>(v, gt, arcs).wf(),
        replay::<AdjList>(v, gt, arcs).gtype == gt,
        replay::<AdjList>(v, gt, arcs).nodes == v.nodes,
        replay::<AdjList>(v, gt, arcs).arc_set() == v.arc_set().union(inserted(gt, arcs)),
    decreases arcs.len(),
{
    if arcs.len() == 0 {
        assert(inserted(gt, arcs) =~= Set::empty());
        assert(v.arc_set().union(inserted(gt, arcs)) =~= v.arc_set());
    } else {
        let prev_arcs = arcs.drop_last();
        assert forall|k: int| 0 <= k < prev_arcs.len() implies (#[trigger] prev_arcs[k]).0
            < v.nodes.len() && prev_arcs[k].1 < v.nodes.len() by {
            assert(prev_arcs[k] == arcs[k]);
        }
        lemma_replay_set(v, gt, prev_arcs);
        lemma_inserted_step(gt, arcs);
        let prev = replay::<AdjList>(v, gt, prev_arcs);
        let a = arcs.last();
        assert(a == arcs[arcs.len() - 1]);
        if crate::math_graph::replays(gt, a.0, a.1) {
            lemma_add_wf(prev, a.0, a.1, a.2);
            lemma_with_entry_set(prev, a.0, a.1, a.2);
            if gt == GraphType::Undirect {
                let once = prev.with_entry(a.0, a.1, a.2);
                lemma_with_entry_set(once, a.1, a.0, a.2);
            }
        }
        assert(replay::<AdjList>(v, gt, arcs).arc_set() =~= v.arc_set().union(inserted(gt, arcs)));
    }
}


/// In an undirected adjacency-list graph, two nodes joined one way are
/// joined the other way too.
pub proof fn lemma_keys_symmetric(g: SparseView)
    requires
        g.wf(),
        g.gtype == GraphType::Undirect,
    ensures
        symmetric_keys(arc_keys(g.arc_set())),
{
    let ks = arc_keys(g.arc_set());
    assert forall|k: (usize, usize)| #[trigger] ks.contains(k) implies ks.contains((k.1, k.0)) by {
        let t = choose|t: (usize, usize, i64)|
            #[trigger] g.arc_set().contains(t) && t.0 == k.0 && t.1 == k.1;
        let l = g.lists[t.0 as int];
        let m = choose|m: int| 0 <= m < l.len() && l[m] == (t.1, t.2);
        assert(l[m].0 == t.1);
        assert(g.has_arc(t.0, t.1));
        assert(g.has_arc(t.1, t.0));
        let back_list = g.lists[t.1 as int];
        let q = choose|q: int| 0 <= q < back_list.len() && (#[trigger] back_list[q]).0 == t.0;
        let back = (t.1, t.0, back_list[q].1);
        assert(back_list[q] == (t.0, back_list[q].1));
        assert(back_list.contains((t.0, back_list[q].1)));
        assert(g.arc_set().contains(back));
    }
}

} // verus!
