//! A backend-neutral form of a graph, used to move a graph from one backend
//! to another and across a serialization boundary.
use vstd::prelude::*;

use crate::graph::Graph;
use crate::update_nodes::{apply_indexed, lemma_apply_indexed_len, overlay, zeros, UpdateNodes};
use crate::{GetGraphType, GraphType};

verus! {

/// The number of zero weights in `s`.
pub open spec fn zero_count(s: Seq<i64>) -> nat
    decreases s.len(),
{
    if s.len() == 0 {
        0
    } else {
        zero_count(s.drop_last()) + if s.last() == 0 {
            1nat
        } else {
            0nat
        }
    }
}

/// The compaction rule: node weights are stored as a sparse list when more
/// than about half of them are zero.
pub open spec fn prefers_compact(s: Seq<i64>) -> bool {
    2 * zero_count(s) > s.len() + 1
}

/// The node weights of a canonical graph.
pub enum Nodes {
    /// One weight per node, by index.
    Extended(Vec<i64>),
    /// The non-zero weights only; the other nodes weigh zero.
    Compact(CompactNodes),
}

/// A node count and `(index, weight)` pairs; nodes that are not listed
/// weigh zero, and a later pair for an index wins. [`Nodes::new`] lists the
/// non-zero weights by ascending index.
pub struct CompactNodes {
    pub count: usize,
    pub weights: Vec<(usize, i64)>,
}

/// The arcs of a canonical graph.
pub enum Arcs {
    /// Arcs without weights: they are rebuilt with weight zero.
    Simple(Vec<(usize, usize)>),
    /// Arcs as `(source, destination, weight)`.
    Weighted(Vec<(usize, usize, i64)>),
}

/// Why a canonical graph cannot be rebuilt.
#[derive(Clone, Copy, PartialEq, Eq, Structural, Debug)]
pub enum DecodeError {
    /// A compact node entry has an index not below the node count.
    NodeIndexOutOfRange,
    /// An arc has an end not below the node count.
    ArcIndexOutOfRange,
}

impl CompactNodes {
    pub fn new(count: usize, weights: Vec<(usize, i64)>) -> (r: Self)
        ensures
            r.count == count,
            r.weights == weights,
    {
        CompactNodes { count, weights }
    }

    /// Whether every listed index is below the node count.
    fn indices_below_count(&self) -> (r: bool)
        ensures
            r == forall|k: int|
                0 <= k < self.weights@.len() ==> (#[trigger] self.weights@[k]).0 < self.count,
    {
        let mut k: usize = 0;
        while k < self.weights.len()
            invariant
                k <= self.weights@.len(),
                forall|j: int| 0 <= j < k ==> (#[trigger] self.weights@[j]).0 < self.count,
            decreases self.weights@.len() - k,
        {
            if self.weights[k].0 >= self.count {
                proof {
                    assert(!(self.weights@[k as int].0 < self.count));
                }
                return false;
            }
            k += 1;
        }
        true
    }

    /// The listed `(index, weight)` pairs.
    pub fn iter_weights(self) -> (r: Vec<(usize, i64)>)
        ensures
            r == self.weights,
    {
        self.weights
    }
}

impl Nodes {
    /// The number of nodes.
    pub open spec fn spec_count(&self) -> nat {
        match self {
            Nodes::Extended(v) => v@.len(),
            Nodes::Compact(c) => c.count as nat,
        }
    }

    /// The weight of every node, by index.
    pub open spec fn spec_weights(&self) -> Seq<i64> {
        match self {
            Nodes::Extended(v) => v@,
            Nodes::Compact(c) => apply_indexed(zeros(c.count as nat), c.weights@),
        }
    }

    /// Every listed index is below the node count.
    pub open spec fn valid(&self) -> bool {
        match self {
            Nodes::Extended(_) => true,
            Nodes::Compact(c) => forall|k: int|
                0 <= k < c.weights@.len() ==> (#[trigger] c.weights@[k]).0 < c.count,
        }
    }

    /// Stores `vec` in compact form when [`prefers_compact`] holds, else as is.
    pub fn new(vec: Vec<i64>) -> (r: Self)
        ensures
            r.spec_count() == vec@.len(),
            r.spec_weights() == vec@,
            r.valid(),
            r is Compact <==> prefers_compact(vec@),
            r matches Nodes::Extended(v) ==> v == vec,
            r matches Nodes::Compact(c) ==> {
                &&& forall|k: int| 0 <= k < c.weights@.len() ==> (#[trigger] c.weights@[k]).1 != 0
                &&& forall|k: int, l: int|
                    0 <= k < l < c.weights@.len() ==> (#[trigger] c.weights@[k]).0
                        < (#[trigger] c.weights@[l]).0
            },
    {
        let total = vec.len();
        let zeros = count_zeros(vec.as_slice());
        if 2 * (zeros as u128) > (total as u128) + 1 {
            Self::new_compact(vec, total)
        } else {
            Self::new_extended(vec)
        }
    }

    fn new_extended(vect: Vec<i64>) -> (r: Self)
        ensures
            r == Nodes::Extended(vect),
    {
        Nodes::Extended(vect)
    }

    fn new_compact(vec: Vec<i64>, count: usize) -> (r: Self)
        requires
            count == vec@.len(),
        ensures
            r matches Nodes::Compact(c) && c.count == count && apply_indexed(
                zeros(count as nat),
                c.weights@,
            ) == vec@,
            r.valid(),
            r matches Nodes::Compact(c) ==> {
                &&& forall|k: int| 0 <= k < c.weights@.len() ==> (#[trigger] c.weights@[k]).1 != 0
                &&& forall|k: int, l: int|
                    0 <= k < l < c.weights@.len() ==> (#[trigger] c.weights@[k]).0
                        < (#[trigger] c.weights@[l]).0
            },
    {
        let mut weights: Vec<(usize, i64)> = Vec::new();
        let mut i: usize = 0;
        while i < count
            invariant
                i <= count,
                count == vec@.len(),
                apply_indexed(zeros(count as nat), weights@) == Seq::new(
                    count as nat,
                    |k: int| if k < i { vec@[k] } else { 0i64 },
                ),
                forall|k: int| 0 <= k < weights@.len() ==> (#[trigger] weights@[k]).0 < i,
                forall|k: int| 0 <= k < weights@.len() ==> (#[trigger] weights@[k]).1 != 0,
                forall|k: int, l: int|
                    0 <= k < l < weights@.len() ==> (#[trigger] weights@[k]).0
                        < (#[trigger] weights@[l]).0,
            decreases count - i,
        {
            let ghost before = weights@;
            if vec[i] != 0 {
                weights.push((i, vec[i]));
                proof {
                    assert(weights@.drop_last() =~= before);
                    lemma_apply_indexed_len(zeros(count as nat), before);
                }
            }
            i += 1;
            proof {
                assert(apply_indexed(zeros(count as nat), weights@) =~= Seq::new(
                    count as nat,
                    |k: int| if k < i { vec@[k] } else { 0i64 },
                ));
            }
        }
        proof {
            assert(Seq::new(count as nat, |k: int| if k < i { vec@[k] } else { 0i64 }) =~= vec@);
        }
        Nodes::Compact(CompactNodes::new(count, weights))
    }

    /// Whether every listed index is below the node count.
    fn indices_valid(&self) -> (r: bool)
        ensures
            r == self.valid(),
    {
        match self {
            Nodes::Extended(_) => true,
            Nodes::Compact(c) => c.indices_below_count(),
        }
    }

    /// The number of nodes.
    pub fn node_count(&self) -> (r: usize)
        ensures
            r == self.spec_count(),
    {
        match self {
            Nodes::Compact(compact) => compact.count,
            Nodes::Extended(nodes) => nodes.len(),
        }
    }
}

/// The number of zero weights in `weights`.
pub fn count_zeros(weights: &[i64]) -> (r: usize)
    ensures
        r == zero_count(weights@),
{
    let mut r: usize = 0;
    let mut k: usize = 0;
    while k < weights.len()
        invariant
            k <= weights@.len(),
            r == zero_count(weights@.take(k as int)),
            r <= k,
        decreases weights@.len() - k,
    {
        proof {
            assert(weights@.take(k + 1).drop_last() =~= weights@.take(k as int));
        }
        if weights[k] == 0 {
            r += 1;
        }
        k += 1;
    }
    proof {
        assert(weights@.take(k as int) =~= weights@);
    }
    r
}

impl Arcs {
    /// The arcs as `(source, destination, weight)`, weight zero for simple
    /// arcs.
    pub open spec fn entries(&self) -> Seq<(usize, usize, i64)> {
        match self {
            Arcs::Simple(v) => v@.map_values(|p: (usize, usize)| (p.0, p.1, 0i64)),
            Arcs::Weighted(v) => v@,
        }
    }

    /// The arcs of `arcs` without their weights.
    pub fn new_simple(arcs: &Vec<(usize, usize, i64)>) -> (r: Self)
        ensures
            r matches Arcs::Simple(v) && v@ == arcs@.map_values(
                |t: (usize, usize, i64)| (t.0, t.1),
            ),
    {
        let mut v: Vec<(usize, usize)> = Vec::new();
        let mut k: usize = 0;
        while k < arcs.len()
            invariant
                k <= arcs@.len(),
                v@ == arcs@.take(k as int).map_values(|t: (usize, usize, i64)| (t.0, t.1)),
            decreases arcs@.len() - k,
        {
            let (i, j, _) = arcs[k];
            v.push((i, j));
            k += 1;
            proof {
                assert(v@ =~= arcs@.take(k as int).map_values(
                    |t: (usize, usize, i64)| (t.0, t.1),
                ));
            }
        }
        proof {
            assert(arcs@.take(k as int) =~= arcs@);
        }
        Arcs::Simple(v)
    }

    pub fn new_weighted(arcs: Vec<(usize, usize, i64)>) -> (r: Self)
        ensures
            r == Arcs::Weighted(arcs),
    {
        Arcs::Weighted(arcs)
    }

    /// The number of arcs.
    fn len(&self) -> (r: usize)
        ensures
            r == self.entries().len(),
    {
        match self {
            Arcs::Simple(v) => v.len(),
            Arcs::Weighted(v) => v.len(),
        }
    }

    /// The ends of the arc at position `k`.
    fn ends(&self, k: usize) -> (r: (usize, usize))
        requires
            k < self.entries().len(),
        ensures
            r.0 == self.entries()[k as int].0,
            r.1 == self.entries()[k as int].1,
    {
        match self {
            Arcs::Simple(v) => v[k],
            Arcs::Weighted(v) => (v[k].0, v[k].1),
        }
    }
}

/// A graph in backend-neutral form: its type, node weights and arcs.
pub struct MathGraph {
    gtype: GraphType,
    nodes: Nodes,
    arcs: Arcs,
}

impl MathGraph {
    pub closed spec fn spec_graph_type(&self) -> GraphType {
        self.gtype
    }

    pub closed spec fn spec_nodes(&self) -> Nodes {
        self.nodes
    }

    pub closed spec fn spec_arcs(&self) -> Arcs {
        self.arcs
    }

    /// The node weights and arc ends are within the node count.
    pub open spec fn valid(&self) -> bool {
        &&& self.spec_nodes().valid()
        &&& arcs_within(self.spec_arcs().entries(), self.spec_nodes().spec_count())
    }

    pub fn new(nodes: Nodes, arcs: Arcs, gtype: GraphType) -> (r: Self)
        ensures
            r.spec_nodes() == nodes,
            r.spec_arcs() == arcs,
            r.spec_graph_type() == gtype,
    {
        MathGraph { nodes, arcs, gtype }
    }

    pub fn node_count(&self) -> (r: usize)
        ensures
            r == self.spec_nodes().spec_count(),
    {
        self.nodes.node_count()
    }

    pub fn graph_type(&self) -> (r: GraphType)
        ensures
            r == self.spec_graph_type(),
    {
        self.gtype
    }

    /// The node weights and the arcs.
    pub fn dismount(self) -> (r: (Nodes, Arcs))
        ensures
            r.0 == self.spec_nodes(),
            r.1 == self.spec_arcs(),
    {
        (self.nodes, self.arcs)
    }

    /// Whether the graph can be rebuilt, and if not, why.
    pub fn validate(&self) -> (r: Result<(), DecodeError>)
        ensures
            r is Ok <==> self.valid(),
            r == Err::<(), DecodeError>(DecodeError::NodeIndexOutOfRange) <==> !self.spec_nodes().valid(),
    {
        let n = self.nodes.node_count();
        if !self.nodes.indices_valid() {
            return Err(DecodeError::NodeIndexOutOfRange);
        }
        let m = self.arcs.len();
        let mut k: usize = 0;
        while k < m
            invariant
                k <= m,
                m == self.arcs.entries().len(),
                n == self.nodes.spec_count(),
                self.nodes.valid(),
                arcs_within(self.arcs.entries().take(k as int), n as nat),
            decreases m - k,
        {
            let (i, j) = self.arcs.ends(k);
            if i >= n || j >= n {
                return Err(DecodeError::ArcIndexOutOfRange);
            }
            k += 1;
            proof {
                assert(self.arcs.entries().take(k as int).drop_last() =~= self.arcs.entries().take(
                    k - 1,
                ));
            }
        }
        proof {
            assert(self.arcs.entries().take(k as int) =~= self.arcs.entries());
        }
        Ok(())
    }
}

/// Every arc of `arcs` has both ends below `n`.
pub open spec fn arcs_within(arcs: Seq<(usize, usize, i64)>, n: nat) -> bool {
    forall|k: int| 0 <= k < arcs.len() ==> (#[trigger] arcs[k]).0 < n && arcs[k].1 < n
}

/// Whether replaying the arc `i -> j` inserts it: always in a directed
/// graph; in an undirected one only from its smaller end, since the backend
/// adds the mirrored arc itself.
pub open spec fn replays(gt: GraphType, i: usize, j: usize) -> bool {
    gt == GraphType::Direct || i <= j
}

/// The state of a graph after replaying `arcs` on state `v`, in order.
pub open spec fn replay<G: Graph>(v: G::V, gt: GraphType, arcs: Seq<(usize, usize, i64)>) -> G::V
    decreases arcs.len(),
{
    if arcs.len() == 0 {
        v
    } else {
        let prev = replay::<G>(v, gt, arcs.drop_last());
        let a = arcs.last();
        if replays(gt, a.0, a.1) {
            G::spec_add(prev, a.0, a.1, a.2)
        } else {
            prev
        }
    }
}

/// The state of a graph rebuilt in backend `G` from a type, node weights
/// and arcs.
pub open spec fn decoded<G: Graph>(
    gt: GraphType,
    nodes: Seq<i64>,
    arcs: Seq<(usize, usize, i64)>,
) -> G::V {
    replay::<G>(G::spec_set_nodes(G::spec_new(nodes.len(), gt), nodes), gt, arcs)
}

/// The graph type that `G` reports is the one in its state.
pub open spec fn kind_consistent<G: Graph + GetGraphType>() -> bool {
    forall|x: G| #[trigger] x.spec_graph_type() == G::spec_kind(x@)
}

/// The node weights `base` after applying `nodes` to them.
pub open spec fn applied(nodes: Nodes, base: Seq<i64>) -> Seq<i64> {
    match nodes {
        Nodes::Extended(v) => overlay(base, v@),
        Nodes::Compact(c) => apply_indexed(base, c.weights@),
    }
}

/// Gives the nodes of `g` the weights of `nodes`.
pub fn apply_nodes<G: UpdateNodes>(g: &mut G, nodes: Nodes)
    requires
        G::spec_wf(old(g)@),
        nodes.valid(),
        nodes.spec_count() == G::spec_nodes(old(g)@).len(),
    ensures
        G::spec_wf(final(g)@),
        G::spec_kind(final(g)@) == G::spec_kind(old(g)@),
        G::spec_arc_count(final(g)@) == G::spec_arc_count(old(g)@),
        G::spec_nodes(final(g)@) == applied(nodes, G::spec_nodes(old(g)@)),
        final(g)@ == G::spec_set_nodes(old(g)@, G::spec_nodes(final(g)@)),
{
    match nodes {
        Nodes::Extended(weights) => g.update_all_nodes_weight_iter(weights.as_slice()),
        Nodes::Compact(compact) => {
            let weights = compact.iter_weights();
            g.update_indexed_nodes_weight(weights.as_slice())
        },
    }
}

/// Inserts the arc `i -> j` with weight `w` when [`replays`] says so.
pub fn conditional_insert_arc<G: Graph>(gt: GraphType, g: &mut G, i: usize, j: usize, w: i64)
    requires
        G::spec_wf(old(g)@),
        i < G::spec_nodes(old(g)@).len(),
        j < G::spec_nodes(old(g)@).len(),
        G::spec_arc_count(old(g)@) + 2 <= usize::MAX,
    ensures
        final(g)@ == if replays(gt, i, j) {
            G::spec_add(old(g)@, i, j, w)
        } else {
            old(g)@
        },
        G::spec_wf(final(g)@),
        G::spec_nodes(final(g)@) == G::spec_nodes(old(g)@),
        G::spec_kind(final(g)@) == G::spec_kind(old(g)@),
        G::spec_arc_count(final(g)@) <= G::spec_arc_count(old(g)@) + 2,
{
    match gt {
        GraphType::Direct => g.add_new_arc(i, j, w),
        GraphType::Undirect => {
            if i <= j {
                g.add_new_arc(i, j, w)
            }
        },
    }
}

/// Replays `arcs` on `g`, in order, as [`replay`] describes.
pub fn apply_arcs<G: Graph + GetGraphType>(g: &mut G, arcs: Arcs)
    requires
        kind_consistent::<G>(),
        G::spec_wf(old(g)@),
        arcs_within(arcs.entries(), G::spec_nodes(old(g)@).len()),
        G::spec_arc_count(old(g)@) + 2 * arcs.entries().len() <= usize::MAX,
    ensures
        final(g)@ == replay::<G>(old(g)@, G::spec_kind(old(g)@), arcs.entries()),
        G::spec_wf(final(g)@),
        G::spec_nodes(final(g)@) == G::spec_nodes(old(g)@),
        G::spec_kind(final(g)@) == G::spec_kind(old(g)@),
{
    let gt = g.graph_type();
    let ghost entries = arcs.entries();
    let ghost start = g@;
    let mut k: usize = 0;
    match arcs {
        Arcs::Simple(simple) => {
            while k < simple.len()
                invariant
                    k <= simple@.len(),
                    entries == simple@.map_values(|p: (usize, usize)| (p.0, p.1, 0i64)),
                    gt == G::spec_kind(start),
                    start == old(g)@,
                    arcs_within(entries, G::spec_nodes(start).len()),
                    G::spec_arc_count(start) + 2 * entries.len() <= usize::MAX,
                    G::spec_wf(g@),
                    G::spec_nodes(g@) == G::spec_nodes(start),
                    G::spec_kind(g@) == G::spec_kind(start),
                    G::spec_arc_count(g@) <= G::spec_arc_count(start) + 2 * k,
                    g@ == replay::<G>(start, gt, entries.take(k as int)),
                decreases simple@.len() - k,
            {
                let (i, j) = simple[k];
                proof {
                    assert(entries.take(k + 1).drop_last() =~= entries.take(k as int));
                    assert(entries[k as int] == (i, j, 0i64));
                }
                conditional_insert_arc(gt, g, i, j, 0);
                k += 1;
            }
        },
        Arcs::Weighted(weighted) => {
            while k < weighted.len()
                invariant
                    k <= weighted@.len(),
                    entries == weighted@,
                    gt == G::spec_kind(start),
                    start == old(g)@,
                    arcs_within(entries, G::spec_nodes(start).len()),
                    G::spec_arc_count(start) + 2 * entries.len() <= usize::MAX,
                    G::spec_wf(g@),
                    G::spec_nodes(g@) == G::spec_nodes(start),
                    G::spec_kind(g@) == G::spec_kind(start),
                    G::spec_arc_count(g@) <= G::spec_arc_count(start) + 2 * k,
                    g@ == replay::<G>(start, gt, entries.take(k as int)),
                decreases weighted@.len() - k,
            {
                let (i, j, w) = weighted[k];
                proof {
                    assert(entries.take(k + 1).drop_last() =~= entries.take(k as int));
                }
                conditional_insert_arc(gt, g, i, j, w);
                k += 1;
            }
        },
    }
    proof {
        assert(entries.take(k as int) =~= entries);
    }
}

/// Rebuilds a graph of backend `G` from its canonical form. Fails, building
/// nothing, when a node index or an arc end is not below the node count.
pub fn build<G: Graph + UpdateNodes + GetGraphType>(m: MathGraph) -> (r: Result<G, DecodeError>)
    requires
        kind_consistent::<G>(),
        G::spec_can_allocate(m.spec_nodes().spec_count()),
        2 * m.spec_arcs().entries().len() <= usize::MAX,
    ensures
        r is Ok <==> m.valid(),
        r matches Ok(g) ==> g@ == decoded::<G>(
            m.spec_graph_type(),
            m.spec_nodes().spec_weights(),
            m.spec_arcs().entries(),
        ) && G::spec_wf(g@),
        r matches Err(e) ==> e == if !m.spec_nodes().valid() {
            DecodeError::NodeIndexOutOfRange
        } else {
            DecodeError::ArcIndexOutOfRange
        },
{
    if let Err(e) = m.validate() {
        return Err(e);
    }
    let node_count = m.node_count();
    let gtype = m.graph_type();
    let (nodes, arcs) = m.dismount();
    let mut g = G::new(node_count, gtype);
    proof {
        assert(G::spec_nodes(g@) =~= zeros(node_count as nat));
    }
    let ghost spec_nodes = nodes;
    apply_nodes(&mut g, nodes);
    proof {
        match spec_nodes {
            Nodes::Extended(v) => {
                assert(overlay(zeros(node_count as nat), v@) =~= v@);
            },
            Nodes::Compact(c) => {
                lemma_apply_indexed_len(zeros(node_count as nat), c.weights@);
            },
        }
    }
    apply_arcs(&mut g, arcs);
    Ok(g)
}


/// The arc `t` in the other direction.
pub open spec fn mirror(t: (usize, usize, i64)) -> (usize, usize, i64) {
    (t.1, t.0, t.2)
}

/// Every arc of `s` is there in both directions, with the same weight.
pub open spec fn symmetric(s: Set<(usize, usize, i64)>) -> bool {
    forall|t: (usize, usize, i64)| #[trigger] s.contains(t) ==> s.contains(mirror(t))
}

/// No two arcs of `s` have the same ends.
pub open spec fn functional(s: Set<(usize, usize, i64)>) -> bool {
    forall|t1: (usize, usize, i64), t2: (usize, usize, i64)|
        #[trigger] s.contains(t1) && #[trigger] s.contains(t2) && t1.0 == t2.0 && t1.1 == t2.1 ==> t1
            == t2
}

/// The arcs that replaying `arcs` inserts: those that [`replays`] keeps,
/// and in an undirected graph their mirrors too.
pub open spec fn inserted(gt: GraphType, arcs: Seq<(usize, usize, i64)>) -> Set<(usize, usize, i64)> {
    Set::new(
        |t: (usize, usize, i64)|
            exists|k: int|
                0 <= k < arcs.len() && replays(gt, arcs[k].0, arcs[k].1) && (t == #[trigger] arcs[k]
                    || gt == GraphType::Undirect && t == mirror(arcs[k])),
    )
}

/// The arcs that replaying the single arc `a` inserts.
pub open spec fn inserted_by(gt: GraphType, a: (usize, usize, i64)) -> Set<(usize, usize, i64)> {
    if !replays(gt, a.0, a.1) {
        Set::empty()
    } else if gt == GraphType::Direct {
        set![a]
    } else {
        set![a, mirror(a)]
    }
}

pub proof fn lemma_inserted_step(gt: GraphType, arcs: Seq<(usize, usize, i64)>)
    requires
        arcs.len() > 0,
    ensures
        inserted(gt, arcs) == inserted(gt, arcs.drop_last()).union(inserted_by(gt, arcs.last())),
{
    let prev = arcs.drop_last();
    assert forall|t: (usize, usize, i64)| #[trigger]
        inserted(gt, arcs).contains(t) <==> inserted(gt, prev).contains(t) || inserted_by(
            gt,
            arcs.last(),
        ).contains(t) by {
        if inserted(gt, arcs).contains(t) {
            let k = choose|k: int|
                0 <= k < arcs.len() && replays(gt, arcs[k].0, arcs[k].1) && (t == #[trigger] arcs[k]
                    || gt == GraphType::Undirect && t == mirror(arcs[k]));
            if k < prev.len() {
                assert(prev[k] == arcs[k]);
            }
        }
        if inserted(gt, prev).contains(t) {
            let k = choose|k: int|
                0 <= k < prev.len() && replays(gt, prev[k].0, prev[k].1) && (t == #[trigger] prev[k]
                    || gt == GraphType::Undirect && t == mirror(prev[k]));
            assert(arcs[k] == prev[k]);
        }
        if inserted_by(gt, arcs.last()).contains(t) {
            assert(arcs[arcs.len() - 1] == arcs.last());
        }
    }
    assert(inserted(gt, arcs) =~= inserted(gt, prev).union(inserted_by(gt, arcs.last())));
}

/// When `arcs` holds exactly the arcs of `s`, and `s` is symmetric if the
/// graph is undirected, replaying `arcs` inserts exactly `s`.
pub proof fn lemma_inserted_of_members(
    gt: GraphType,
    arcs: Seq<(usize, usize, i64)>,
    s: Set<(usize, usize, i64)>,
)
    requires
        forall|t: (usize, usize, i64)| #[trigger] arcs.contains(t) <==> s.contains(t),
        gt == GraphType::Undirect ==> symmetric(s),
    ensures
        inserted(gt, arcs) == s,
{
    assert forall|t: (usize, usize, i64)| #[trigger] inserted(gt, arcs).contains(t) <==> s.contains(
        t,
    ) by {
        if inserted(gt, arcs).contains(t) {
            let k = choose|k: int|
                0 <= k < arcs.len() && replays(gt, arcs[k].0, arcs[k].1) && (t == #[trigger] arcs[k]
                    || gt == GraphType::Undirect && t == mirror(arcs[k]));
            assert(arcs.contains(arcs[k]));
            assert(s.contains(arcs[k]));
        }
        if s.contains(t) {
            assert(arcs.contains(t));
            let k = choose|k: int| 0 <= k < arcs.len() && arcs[k] == t;
            if !replays(gt, t.0, t.1) {
                assert(s.contains(mirror(t)));
                assert(arcs.contains(mirror(t)));
                let l = choose|l: int| 0 <= l < arcs.len() && arcs[l] == mirror(t);
                assert(t == mirror(arcs[l]));
            }
        }
    }
    assert(inserted(gt, arcs) =~= s);
}


/// The pairs of nodes that the arcs of `s` join, from source to destination.
pub open spec fn arc_keys(s: Set<(usize, usize, i64)>) -> Set<(usize, usize)> {
    Set::new(
        |k: (usize, usize)|
            exists|t: (usize, usize, i64)| #[trigger] s.contains(t) && t.0 == k.0 && t.1 == k.1,
    )
}

/// Every pair of `ks` is there in both orders.
pub open spec fn symmetric_keys(ks: Set<(usize, usize)>) -> bool {
    forall|k: (usize, usize)| #[trigger] ks.contains(k) ==> ks.contains((k.1, k.0))
}

/// The pairs of nodes that replaying the single arc `a` joins.
pub open spec fn keys_inserted_by(gt: GraphType, a: (usize, usize, i64)) -> Set<(usize, usize)> {
    if !replays(gt, a.0, a.1) {
        Set::empty()
    } else if gt == GraphType::Direct {
        set![(a.0, a.1)]
    } else {
        set![(a.0, a.1), (a.1, a.0)]
    }
}

pub proof fn lemma_inserted_keys_step(gt: GraphType, arcs: Seq<(usize, usize, i64)>)
    requires
        arcs.len() > 0,
    ensures
        arc_keys(inserted(gt, arcs)) == arc_keys(inserted(gt, arcs.drop_last())).union(
            keys_inserted_by(gt, arcs.last()),
        ),
{
    let a = arcs.last();
    let all = inserted(gt, arcs);
    let prev = inserted(gt, arcs.drop_last());
    lemma_inserted_step(gt, arcs);
    assert forall|k: (usize, usize)| #[trigger] arc_keys(all).contains(k) <==> arc_keys(prev).union(
        keys_inserted_by(gt, a),
    ).contains(k) by {
        if arc_keys(all).contains(k) {
            let t = choose|t: (usize, usize, i64)| #[trigger] all.contains(t) && t.0 == k.0 && t.1 == k.1;
            if prev.contains(t) {
                assert(arc_keys(prev).contains(k));
            }
        }
        if arc_keys(prev).contains(k) {
            let t = choose|t: (usize, usize, i64)|
                #[trigger] prev.contains(t) && t.0 == k.0 && t.1 == k.1;
            assert(all.contains(t));
        }
        if keys_inserted_by(gt, a).contains(k) {
            if k == (a.0, a.1) {
                assert(inserted_by(gt, a).contains(a));
                assert(all.contains(a));
            } else {
                assert(inserted_by(gt, a).contains(mirror(a)));
                assert(all.contains(mirror(a)));
            }
        }
    }
    assert(arc_keys(all) =~= arc_keys(prev).union(keys_inserted_by(gt, a)));
}

/// When the arcs of `arcs` join exactly the pairs of `ks`, and `ks` holds
/// each pair in both orders if the graph is undirected, replaying `arcs`
/// joins exactly the pairs of `ks`.
pub proof fn lemma_inserted_keys_of_members(
    gt: GraphType,
    arcs: Seq<(usize, usize, i64)>,
    ks: Set<(usize, usize)>,
)
    requires
        forall|k: (usize, usize)|
            #[trigger] ks.contains(k) ==> exists|t: (usize, usize, i64)|
                #[trigger] arcs.contains(t) && t.0 == k.0 && t.1 == k.1,
        forall|t: (usize, usize, i64)| #[trigger] arcs.contains(t) ==> ks.contains((t.0, t.1)),
        gt == GraphType::Undirect ==> symmetric_keys(ks),
    ensures
        arc_keys(inserted(gt, arcs)) == ks,
{
    let all = inserted(gt, arcs);
    assert forall|k: (usize, usize)| #[trigger] arc_keys(all).contains(k) <==> ks.contains(k) by {
        if arc_keys(all).contains(k) {
            let t = choose|t: (usize, usize, i64)| #[trigger] all.contains(t) && t.0 == k.0 && t.1 == k.1;
            let j = choose|j: int|
                0 <= j < arcs.len() && replays(gt, arcs[j].0, arcs[j].1) && (t == #[trigger] arcs[j]
                    || gt == GraphType::Undirect && t == mirror(arcs[j]));
            let a = arcs[j];
            assert(arcs.contains(a));
            assert(ks.contains((a.0, a.1)));
            if t != a {
                assert(ks.contains((a.1, a.0)));
                assert(k == (a.1, a.0));
            } else {
                assert(k == (a.0, a.1));
            }
        }
        if ks.contains(k) {
            let t = choose|t: (usize, usize, i64)|
                #[trigger] arcs.contains(t) && t.0 == k.0 && t.1 == k.1;
            let j = choose|j: int| 0 <= j < arcs.len() && arcs[j] == t;
            if replays(gt, t.0, t.1) {
                assert(all.contains(t));
            } else {
                assert(ks.contains((k.1, k.0)));
                let t2 = choose|t2: (usize, usize, i64)|
                    #[trigger] arcs.contains(t2) && t2.0 == k.1 && t2.1 == k.0;
                let l = choose|l: int| 0 <= l < arcs.len() && arcs[l] == t2;
                assert(all.contains(mirror(arcs[l])));
            }
        }
    }
    assert(arc_keys(all) =~= ks);
}

} // verus!
