//! A graph stored as a presence matrix and a weight matrix.
use vstd::prelude::*;

use crate::graph::Graph;
use crate::math_graph::{
    arc_keys, arcs_within, build, decoded, functional, inserted,
    lemma_inserted_keys_step, lemma_inserted_step, prefers_compact, replay,
    replays, Arcs, DecodeError, MathGraph, Nodes,
};
use crate::grid::{
    presence_at, presence_cells, presence_grid, set_presence, set_weight, weight_at, weight_cells,
    weight_grid, PresenceGrid, WeightGrid,
};
use crate::path_cost::ArcCost;
use crate::update_nodes::{apply_indexed, overlay, zeros, UpdateNodes};
use crate::visitor::GraphVisitor;
use crate::{GetGraphType, GraphType};

verus! {

/// `n` rows of `n` copies of `v`.
pub open spec fn square<T>(n: nat, v: T) -> Seq<Seq<T>> {
    Seq::new(n, |i: int| Seq::new(n, |j: int| v))
}

/// `m` with the cell at row `i`, column `j` set to `v`.
pub open spec fn set_cell<T>(m: Seq<Seq<T>>, i: int, j: int, v: T) -> Seq<Seq<T>> {
    m.update(i, m[i].update(j, v))
}

/// The state of a [`MatrixGraph`]: which arcs are present, and the weight
/// cell of every pair of nodes.
pub struct DenseView {
    pub gtype: GraphType,
    pub nodes: Seq<i64>,
    pub present: Seq<Seq<bool>>,
    pub weights: Seq<Seq<i64>>,
    pub arc_count: nat,
}

impl DenseView {
    pub open spec fn is_square<T>(m: Seq<Seq<T>>, n: nat) -> bool {
        &&& m.len() == n
        &&& forall|i: int| 0 <= i < n ==> (#[trigger] m[i]).len() == n
    }

    /// Both matrices are square, of the number of nodes.
    pub open spec fn shaped(self) -> bool {
        &&& Self::is_square(self.present, self.nodes.len())
        &&& Self::is_square(self.weights, self.nodes.len())
    }

    /// Both matrices are square, an undirected graph has its arcs in both
    /// directions, and the arc count is the number of present arcs.
    pub open spec fn wf(self) -> bool {
        &&& self.nodes.len() <= usize::MAX
        &&& self.shaped()
        &&& self.arc_count == self.arcs().len()
        &&& self.gtype == GraphType::Undirect ==> forall|i: int, j: int|
            0 <= i < self.nodes.len() && 0 <= j < self.nodes.len() ==> (#[trigger] self.present[i][j]
                == self.present[j][i])
    }

    pub open spec fn empty(node_count: nat, gtype: GraphType) -> DenseView {
        DenseView {
            gtype,
            nodes: zeros(node_count),
            present: square(node_count, false),
            weights: square(node_count, 0i64),
            arc_count: 0,
        }
    }

    /// Sets the arc `src -> dst` to weight `w` unless it is already present.
    pub open spec fn make_arc(self, src: usize, dst: usize, w: i64) -> DenseView {
        if self.present[src as int][dst as int] {
            self
        } else {
            DenseView {
                present: set_cell(self.present, src as int, dst as int, true),
                weights: set_cell(self.weights, src as int, dst as int, w),
                arc_count: self.arc_count + 1,
                ..self
            }
        }
    }

    /// Insertion of the arc `src -> dst`, mirrored when undirected.
    pub open spec fn add(self, src: usize, dst: usize, w: i64) -> DenseView {
        match self.gtype {
            GraphType::Direct => self.make_arc(src, dst, w),
            GraphType::Undirect => self.make_arc(src, dst, w).make_arc(dst, src, w),
        }
    }

    /// The present arcs of row `i` among its first `cols` columns.
    pub open spec fn row_arcs(self, i: usize, cols: nat) -> Seq<(usize, usize, i64)>
        decreases cols,
    {
        if cols == 0 {
            Seq::empty()
        } else {
            let j = (cols - 1) as usize;
            self.row_arcs(i, (cols - 1) as nat) + if self.present[i as int][j as int] {
                seq![(i, j, self.weights[i as int][j as int])]
            } else {
                Seq::empty()
            }
        }
    }

    /// The present arcs of the first `rows` rows, row after row.
    pub open spec fn arcs_upto(self, rows: nat) -> Seq<(usize, usize, i64)>
        decreases rows,
    {
        if rows == 0 {
            Seq::empty()
        } else {
            self.arcs_upto((rows - 1) as nat) + self.row_arcs(
                (rows - 1) as usize,
                self.nodes.len(),
            )
        }
    }

    /// All present arcs, in row-major order.
    pub open spec fn arcs(self) -> Seq<(usize, usize, i64)> {
        self.arcs_upto(self.nodes.len())
    }

    /// The pairs of nodes with an arc between them, from source to
    /// destination.
    pub open spec fn present_keys(self) -> Set<(usize, usize)> {
        Set::new(
            |k: (usize, usize)|
                k.0 < self.nodes.len() && k.1 < self.nodes.len() && self.present[k.0 as int][k.1 as int],
        )
    }

    /// The present arcs as a set.
    pub open spec fn arc_set(self) -> Set<(usize, usize, i64)> {
        Set::new(
            |t: (usize, usize, i64)|
                t.0 < self.nodes.len() && t.1 < self.nodes.len() && self.present[t.0 as int][t.1 as int]
                    && self.weights[t.0 as int][t.1 as int] == t.2,
        )
    }
}

/// A graph stored as an `n` by `n` presence matrix and a parallel weight
/// matrix. Inserting an arc that is already present changes nothing: its
/// weight stays and the arc count does not grow.
#[derive(Debug)]
pub struct MatrixGraph {
    arc_count: usize,
    gtype: GraphType,
    nodes: Vec<i64>,
    adj_mat: PresenceGrid,
    weight_mat: WeightGrid,
}

impl View for MatrixGraph {
    type V = DenseView;

    closed spec fn view(&self) -> DenseView {
        DenseView {
            gtype: self.gtype,
            nodes: self.nodes@,
            present: presence_cells(self.adj_mat),
            weights: weight_cells(self.weight_mat),
            arc_count: self.arc_count as nat,
        }
    }
}

/// The number of present arcs in a row depends only on which cells are set.
proof fn lemma_row_len_same(a: DenseView, b: DenseView, i: usize, cols: nat)
    requires
        forall|j: int| 0 <= j < cols ==> #[trigger] a.present[i as int][j] == b.present[i as int][j],
    ensures
        a.row_arcs(i, cols).len() == b.row_arcs(i, cols).len(),
    decreases cols,
{
    if cols > 0 {
        lemma_row_len_same(a, b, i, (cols - 1) as nat);
        assert(a.present[i as int][cols - 1] == b.present[i as int][cols - 1]);
    }
}

/// The number of present arcs depends only on which cells are set.
proof fn lemma_upto_len_same(a: DenseView, b: DenseView, rows: nat)
    requires
        a.nodes.len() == b.nodes.len(),
        forall|i: int, j: int|
            0 <= i < rows && 0 <= j < a.nodes.len() ==> #[trigger] a.present[i][j] == b.present[i][j],
    ensures
        a.arcs_upto(rows).len() == b.arcs_upto(rows).len(),
    decreases rows,
{
    if rows > 0 {
        lemma_upto_len_same(a, b, (rows - 1) as nat);
        let i = (rows - 1) as usize;
        assert forall|j: int| 0 <= j < a.nodes.len() implies #[trigger] a.present[i as int][j]
            == b.present[i as int][j] by {
            assert(a.present[rows - 1][j] == b.present[rows - 1][j]);
        }
        lemma_row_len_same(a, b, i, a.nodes.len());
    }
}

/// Setting one more cell of a row adds one present arc to it.
proof fn lemma_row_len_set(v: DenseView, u: DenseView, i: usize, d: int, cols: nat)
    requires
        cols <= usize::MAX,
        forall|j: int| 0 <= j < cols && j != d ==> #[trigger] u.present[i as int][j] == v.present[i as int][j],
        u.present[i as int][d],
        !v.present[i as int][d],
    ensures
        u.row_arcs(i, cols).len() == v.row_arcs(i, cols).len() + if 0 <= d < cols {
            1int
        } else {
            0int
        },
    decreases cols,
{
    if cols > 0 {
        lemma_row_len_set(v, u, i, d, (cols - 1) as nat);
        if cols - 1 != d {
            assert(u.present[i as int][cols - 1] == v.present[i as int][cols - 1]);
        }
    }
}

/// Setting one absent cell adds one present arc.
proof fn lemma_upto_len_set(v: DenseView, src: usize, dst: usize, w: i64, rows: nat)
    requires
        v.nodes.len() <= usize::MAX,
        v.shaped(),
        src < v.nodes.len(),
        dst < v.nodes.len(),
        rows <= v.nodes.len(),
        !v.present[src as int][dst as int],
    ensures
        v.make_arc(src, dst, w).arcs_upto(rows).len() == v.arcs_upto(rows).len() + if src < rows {
            1int
        } else {
            0int
        },
    decreases rows,
{
    let u = v.make_arc(src, dst, w);
    if rows > 0 {
        lemma_upto_len_set(v, src, dst, w, (rows - 1) as nat);
        let i = (rows - 1) as usize;
        if i == src {
            lemma_row_len_set(v, u, i, dst as int, v.nodes.len());
        } else {
            assert forall|j: int| 0 <= j < v.nodes.len() implies #[trigger] u.present[i as int][j]
                == v.present[i as int][j] by {
                assert(u.present[i as int] == v.present[i as int]);
            }
            lemma_row_len_same(u, v, i, v.nodes.len());
        }
    }
}

/// A matrix without set cells holds no arcs.
pub proof fn lemma_upto_len_empty(v: DenseView, rows: nat)
    requires
        rows <= v.nodes.len(),
        v.present == square(v.nodes.len(), false),
    ensures
        v.arcs_upto(rows).len() == 0,
    decreases rows,
{
    if rows > 0 {
        lemma_upto_len_empty(v, (rows - 1) as nat);
        lemma_row_len_empty(v, (rows - 1) as usize, v.nodes.len());
    }
}

proof fn lemma_row_len_empty(v: DenseView, i: usize, cols: nat)
    requires
        i < v.nodes.len(),
        cols <= v.nodes.len(),
        v.present == square(v.nodes.len(), false),
    ensures
        v.row_arcs(i, cols).len() == 0,
    decreases cols,
{
    if cols > 0 {
        lemma_row_len_empty(v, i, (cols - 1) as nat);
    }
}

proof fn lemma_make_arc_count(v: DenseView, src: usize, dst: usize, w: i64)
    requires
        v.nodes.len() <= usize::MAX,
        v.shaped(),
        src < v.nodes.len(),
        dst < v.nodes.len(),
        v.arc_count == v.arcs().len(),
    ensures
        v.make_arc(src, dst, w).arc_count == v.make_arc(src, dst, w).arcs().len(),
        v.make_arc(src, dst, w).shaped(),
{
    let n = v.nodes.len();
    let u = v.make_arc(src, dst, w);
    if !v.present[src as int][dst as int] {
        lemma_upto_len_set(v, src, dst, w, n);
        assert(DenseView::is_square(u.present, n));
        assert(DenseView::is_square(u.weights, n));
    }
}

proof fn lemma_add_wf(v: DenseView, src: usize, dst: usize, w: i64)
    requires
        v.wf(),
        src < v.nodes.len(),
        dst < v.nodes.len(),
    ensures
        v.add(src, dst, w).wf(),
{
    let n = v.nodes.len();
    let u = v.make_arc(src, dst, w);
    lemma_make_arc_count(v, src, dst, w);
    assert(DenseView::is_square(u.present, n));
    assert(DenseView::is_square(u.weights, n));
    if v.gtype == GraphType::Undirect {
        let x = u.make_arc(dst, src, w);
        lemma_make_arc_count(u, dst, src, w);
        assert(DenseView::is_square(x.present, n));
        assert(DenseView::is_square(x.weights, n));
        assert forall|i: int, j: int| 0 <= i < n && 0 <= j < n implies #[trigger] x.present[i][j]
            == x.present[j][i] by {
            assert(x.present[i][j] == (v.present[i][j] || (i == src && j == dst) || (i == dst && j
                == src)));
            assert(x.present[j][i] == (v.present[j][i] || (j == src && i == dst) || (j == dst && i
                == src)));
        }
    }
}

impl MatrixGraph {
    pub fn new_direct(node_count: usize) -> (r: Self)
        requires
            node_count * node_count <= isize::MAX,
        ensures
            r@ == DenseView::empty(node_count as nat, GraphType::Direct),
            r@.wf(),
    {
        <Self as Graph>::new(node_count, GraphType::Direct)
    }

    pub fn new_undirect(node_count: usize) -> (r: Self)
        requires
            node_count * node_count <= isize::MAX,
        ensures
            r@ == DenseView::empty(node_count as nat, GraphType::Undirect),
            r@.wf(),
    {
        <Self as Graph>::new(node_count, GraphType::Undirect)
    }

    fn make_arc(&mut self, src: usize, dst: usize, weight: i64)
        requires
            old(self)@.shaped(),
            src < old(self)@.nodes.len(),
            dst < old(self)@.nodes.len(),
            old(self).arc_count < usize::MAX,
        ensures
            final(self)@ == old(self)@.make_arc(src, dst, weight),
            final(self)@.shaped(),
            final(self).arc_count <= old(self).arc_count + 1,
    {
        if !presence_at(&self.adj_mat, src, dst) {
            set_presence(&mut self.adj_mat, src, dst, true);
            set_weight(&mut self.weight_mat, src, dst, weight);
            self.arc_count = self.arc_count + 1;
        }
    }

    /// The nodes as `(index, weight)`, by index.
    pub fn node_iterator(&self) -> (r: Vec<(usize, i64)>)
        ensures
            r@ == Seq::new(self@.nodes.len(), |i: int| (i as usize, self@.nodes[i])),
    {
        let mut r: Vec<(usize, i64)> = Vec::new();
        let mut i: usize = 0;
        while i < self.nodes.len()
            invariant
                i <= self.nodes@.len(),
                r@ == Seq::new(i as nat, |k: int| (k as usize, self@.nodes[k])),
            decreases self.nodes@.len() - i,
        {
            r.push((i, self.nodes[i]));
            i += 1;
            proof {
                assert(r@ =~= Seq::new(i as nat, |k: int| (k as usize, self@.nodes[k])));
            }
        }
        r
    }

    /// The arcs leaving `node` as `(node, destination, weight)`, by
    /// destination.
    pub fn successor_iterator(&self, node: usize) -> (r: Vec<(usize, usize, i64)>)
        requires
            self@.wf(),
            node < self@.nodes.len(),
        ensures
            r@ == self@.row_arcs(node, self@.nodes.len()),
    {
        let nc = self.nodes.len();
        let mut r: Vec<(usize, usize, i64)> = Vec::new();
        let mut j: usize = 0;
        while j < nc
            invariant
                j <= nc,
                nc == self@.nodes.len(),
                self@.wf(),
                node < nc,
                r@ == self@.row_arcs(node, j as nat),
            decreases nc - j,
        {
            if presence_at(&self.adj_mat, node, j) {
                r.push((node, j, weight_at(&self.weight_mat, node, j)));
            }
            j += 1;
            proof {
                assert(r@ =~= self@.row_arcs(node, j as nat));
            }
        }
        r
    }

    /// All present arcs as `(source, destination, weight)`, in row-major
    /// order.
    pub fn arc_iterator(&self) -> (r: Vec<(usize, usize, i64)>)
        requires
            self@.wf(),
        ensures
            r@ == self@.arcs(),
    {
        let mut r: Vec<(usize, usize, i64)> = Vec::new();
        let n = self.nodes.len();
        let mut i: usize = 0;
        while i < n
            invariant
                i <= n,
                n == self@.nodes.len(),
                self@.wf(),
                r@ == self@.arcs_upto(i as nat),
            decreases n - i,
        {
            let row = self.successor_iterator(i);
            let ghost before = r@;
            let mut k: usize = 0;
            while k < row.len()
                invariant
                    k <= row@.len(),
                    r@ == before + row@.take(k as int),
                decreases row@.len() - k,
            {
                r.push(row[k]);
                k += 1;
                proof {
                    assert(r@ =~= before + row@.take(k as int));
                }
            }
            proof {
                assert(row@.take(k as int) =~= row@);
            }
            i += 1;
        }
        r
    }
}

impl Graph for MatrixGraph {
    open spec fn spec_wf(v: DenseView) -> bool {
        v.wf()
    }

    open spec fn spec_nodes(v: DenseView) -> Seq<i64> {
        v.nodes
    }

    open spec fn spec_kind(v: DenseView) -> GraphType {
        v.gtype
    }

    open spec fn spec_arc_count(v: DenseView) -> nat {
        v.arc_count
    }

    open spec fn spec_can_allocate(node_count: nat) -> bool {
        node_count * node_count <= isize::MAX
    }

    open spec fn spec_new(node_count: nat, gtype: GraphType) -> DenseView {
        DenseView::empty(node_count, gtype)
    }

    open spec fn spec_add(v: DenseView, src: usize, dst: usize, w: i64) -> DenseView {
        v.add(src, dst, w)
    }

    open spec fn spec_set_nodes(v: DenseView, nodes: Seq<i64>) -> DenseView {
        DenseView { nodes, ..v }
    }

    open spec fn spec_reweighted(
        before: DenseView,
        after: DenseView,
        rel: spec_fn(usize, usize, i64, i64) -> bool,
    ) -> bool {
        &&& after.gtype == before.gtype
        &&& after.nodes == before.nodes
        &&& after.present == before.present
        &&& after.arc_count == before.arc_count
        &&& DenseView::is_square(after.weights, before.nodes.len())
        &&& forall|i: int, j: int|
            0 <= i < before.nodes.len() && 0 <= j < before.nodes.len() ==> if before.present[i][j] {
                rel(i as usize, j as usize, before.weights[i][j], #[trigger] after.weights[i][j])
            } else {
                after.weights[i][j] == before.weights[i][j]
            }
    }

    fn new(node_count: usize, gtype: GraphType) -> (r: Self) {
        let nodes = vec![0i64; node_count];
        let adj_mat = presence_grid(node_count);
        let weight_mat = weight_grid(node_count);
        let r = MatrixGraph { arc_count: 0, gtype, nodes, adj_mat, weight_mat };
        proof {
            lemma_upto_len_empty(r@, node_count as nat);
            assert(r@.nodes =~= zeros(node_count as nat));
        }
        r
    }

    fn add_new_default_arc(&mut self, src: usize, dst: usize) {
        self.add_new_arc(src, dst, 0);
    }

    fn add_new_arc(&mut self, src: usize, dst: usize, weight: i64) {
        proof {
            lemma_add_wf(self@, src, dst, weight);
        }
        match self.gtype {
            GraphType::Direct => {
                self.make_arc(src, dst, weight);
            },
            GraphType::Undirect => {
                self.make_arc(src, dst, weight);
                self.make_arc(dst, src, weight);
            },
        }
    }

    fn update_all_arcs_weight<F: Fn(usize, usize, i64) -> i64>(&mut self, f: F) {
        let ghost pre = self@;
        let n = self.nodes.len();
        let mut i: usize = 0;
        while i < n
            invariant
                i <= n,
                n == pre.nodes.len(),
                pre == old(self)@,
                pre.wf(),
                self@.gtype == pre.gtype,
                self@.nodes == pre.nodes,
                self@.present == pre.present,
                self@.arc_count == pre.arc_count,
                DenseView::is_square(self@.weights, n as nat),
                forall|i: usize, j: usize, w: i64| f.requires((i, j, w)),
                forall|a: int, b: int|
                    0 <= a < n && 0 <= b < n ==> if a < i && pre.present[a][b] {
                        f.ensures((a as usize, b as usize, pre.weights[a][b]), #[trigger] self@.weights[a][b])
                    } else {
                        self@.weights[a][b] == pre.weights[a][b]
                    },
            decreases n - i,
        {
            let mut j: usize = 0;
            while j < n
                invariant
                    i < n,
                    j <= n,
                    n == pre.nodes.len(),
                    pre == old(self)@,
                    pre.wf(),
                    self@.gtype == pre.gtype,
                    self@.nodes == pre.nodes,
                    self@.present == pre.present,
                    self@.arc_count == pre.arc_count,
                    DenseView::is_square(self@.weights, n as nat),
                    forall|i: usize, j: usize, w: i64| f.requires((i, j, w)),
                    forall|a: int, b: int|
                        0 <= a < n && 0 <= b < n ==> if (a < i || a == i && b < j) && pre.present[a][b] {
                            f.ensures((a as usize, b as usize, pre.weights[a][b]), #[trigger] self@.weights[a][b])
                        } else {
                            self@.weights[a][b] == pre.weights[a][b]
                        },
                decreases n - j,
            {
                if presence_at(&self.adj_mat, i, j) {
                    let w = f(i, j, weight_at(&self.weight_mat, i, j));
                    set_weight(&mut self.weight_mat, i, j, w);
                }
                j += 1;
            }
            i += 1;
        }
        proof {
            lemma_upto_len_same(pre, self@, n as nat);
        }
    }

    fn update_all_nodes_weight<F: Fn(usize, i64) -> i64>(&mut self, f: F) {
        let n = self.nodes.len();
        let mut i: usize = 0;
        while i < n
            invariant
                i <= n,
                n == self.nodes@.len(),
                n == old(self).nodes@.len(),
                self.gtype == old(self).gtype,
                self.adj_mat == old(self).adj_mat,
                self.weight_mat == old(self).weight_mat,
                self.arc_count == old(self).arc_count,
                forall|i: usize, w: i64| f.requires((i, w)),
                forall|r: int| i <= r < n ==> #[trigger] self.nodes@[r] == old(self).nodes@[r],
                forall|r: int|
                    0 <= r < i ==> f.ensures(
                        (r as usize, old(self).nodes@[r]),
                        #[trigger] self.nodes@[r],
                    ),
            decreases n - i,
        {
            let w = f(i, self.nodes[i]);
            self.nodes.set(i, w);
            i += 1;
        }
        proof {
            assert(self@ == (DenseView { nodes: self@.nodes, ..old(self)@ }));
            lemma_upto_len_same(old(self)@, self@, self@.nodes.len());
        }
    }
}

impl UpdateNodes for MatrixGraph {
    fn update_all_nodes_weight_iter(&mut self, weights: &[i64]) {
        let n = self.nodes.len();
        let mut i: usize = 0;
        while i < n && i < weights.len()
            invariant
                i <= n,
                i <= weights@.len(),
                n == self.nodes@.len(),
                self.gtype == old(self).gtype,
                self.adj_mat == old(self).adj_mat,
                self.weight_mat == old(self).weight_mat,
                self.arc_count == old(self).arc_count,
                self.nodes@ == Seq::new(
                    n as nat,
                    |r: int| if r < i { weights@[r] } else { old(self).nodes@[r] },
                ),
            decreases n - i,
        {
            self.nodes.set(i, weights[i]);
            i += 1;
            proof {
                assert(self.nodes@ =~= Seq::new(
                    n as nat,
                    |r: int| if r < i { weights@[r] } else { old(self).nodes@[r] },
                ));
            }
        }
        proof {
            assert forall|r: int| 0 <= r < n implies self.nodes@[r] == overlay(
                old(self).nodes@,
                weights@,
            )[r] by {
                if r < weights@.len() {
                    assert(r < i);
                }
            }
            assert(self.nodes@ =~= overlay(old(self).nodes@, weights@));
            assert(self@ == (DenseView { nodes: self@.nodes, ..old(self)@ }));
            lemma_upto_len_same(old(self)@, self@, self@.nodes.len());
        }
    }

    fn update_indexed_nodes_weight(&mut self, pairs: &[(usize, i64)]) {
        let mut k: usize = 0;
        while k < pairs.len()
            invariant
                k <= pairs@.len(),
                self.gtype == old(self).gtype,
                self.adj_mat == old(self).adj_mat,
                self.weight_mat == old(self).weight_mat,
                self.arc_count == old(self).arc_count,
                forall|j: int|
                    0 <= j < pairs@.len() ==> (#[trigger] pairs@[j]).0 < old(self).nodes@.len(),
                self.nodes@ == apply_indexed(old(self).nodes@, pairs@.take(k as int)),
            decreases pairs@.len() - k,
        {
            let (i, w) = pairs[k];
            proof {
                crate::update_nodes::lemma_apply_indexed_len(
                    old(self).nodes@,
                    pairs@.take(k as int),
                );
                assert(pairs@.take(k + 1).drop_last() =~= pairs@.take(k as int));
            }
            self.nodes.set(i, w);
            k += 1;
        }
        proof {
            assert(pairs@.take(k as int) =~= pairs@);
            crate::update_nodes::lemma_apply_indexed_len(old(self).nodes@, pairs@);
            assert(self@ == (DenseView { nodes: self@.nodes, ..old(self)@ }));
            lemma_upto_len_same(old(self)@, self@, self@.nodes.len());
        }
    }
}

impl GetGraphType for MatrixGraph {
    open spec fn spec_graph_type(&self) -> GraphType {
        self@.gtype
    }

    fn graph_type(&self) -> (r: GraphType) {
        self.gtype
    }
}

impl GraphVisitor for MatrixGraph {
    open spec fn spec_nodes_visited(&self) -> Seq<(usize, i64)> {
        Seq::new(self@.nodes.len(), |i: int| (i as usize, self@.nodes[i]))
    }

    open spec fn spec_arcs_visited(&self) -> Seq<(usize, usize, i64)> {
        self@.arcs()
    }

    open spec fn spec_counted_arcs(&self) -> nat {
        self@.arc_count
    }

    open spec fn well_formed(&self) -> bool {
        self@.wf()
    }

    fn node_entries(&self) -> (r: Vec<(usize, i64)>) {
        let r = self.node_iterator();
        proof {
            assert(r@ =~= self.spec_nodes_visited());
        }
        r
    }

    fn arc_entries(&self) -> (r: Vec<(usize, usize, i64)>) {
        let r = self.arc_iterator();
        proof {
            assert(r@ =~= self.spec_arcs_visited());
        }
        r
    }

    fn node_count(&self) -> (r: usize) {
        self.nodes.len()
    }

    fn arc_count(&self) -> (r: usize) {
        self.arc_count
    }
}

impl ArcCost for MatrixGraph {
    open spec fn spec_has_arc(&self, src: usize, dst: usize) -> bool {
        &&& self@.wf()
        &&& src < self@.nodes.len()
        &&& dst < self@.nodes.len()
        &&& self@.present[src as int][dst as int]
    }

    open spec fn spec_cost(&self, src: usize, dst: usize) -> i64 {
        self@.weights[src as int][dst as int]
    }

    fn cost(&self, src: usize, dst: usize) -> (r: i64) {
        weight_at(&self.weight_mat, src, dst)
    }
}


proof fn lemma_row_arcs_members(v: DenseView, i: usize, cols: nat, t: (usize, usize, i64))
    requires
        v.shaped(),
        i < v.nodes.len(),
        cols <= v.nodes.len(),
        v.nodes.len() <= usize::MAX,
    ensures
        v.row_arcs(i, cols).contains(t) <==> (t.0 == i && t.1 < cols && v.present[i as int][t.1 as int]
            && v.weights[i as int][t.1 as int] == t.2),
    decreases cols,
{
    if cols > 0 {
        let j = (cols - 1) as usize;
        let prev = v.row_arcs(i, (cols - 1) as nat);
        let last = if v.present[i as int][j as int] {
            seq![(i, j, v.weights[i as int][j as int])]
        } else {
            Seq::empty()
        };
        let all = v.row_arcs(i, cols);
        assert(all == prev + last);
        lemma_row_arcs_members(v, i, (cols - 1) as nat, t);
        if all.contains(t) {
            let k = choose|k: int| 0 <= k < all.len() && all[k] == t;
            if k < prev.len() {
                assert(prev[k] == t);
            } else {
                assert(last[k - prev.len()] == t);
            }
        }
        if prev.contains(t) {
            let k = choose|k: int| 0 <= k < prev.len() && prev[k] == t;
            assert(all[k] == t);
        }
        if t.0 == i && t.1 == j && v.present[i as int][j as int] && v.weights[i as int][j as int]
            == t.2 {
            assert(all[prev.len() as int] == t);
        }
    }
}

proof fn lemma_arcs_upto_members(v: DenseView, rows: nat, t: (usize, usize, i64))
    requires
        v.shaped(),
        rows <= v.nodes.len(),
        v.nodes.len() <= usize::MAX,
    ensures
        v.arcs_upto(rows).contains(t) <==> (t.0 < rows && t.1 < v.nodes.len() && v.present[t.0 as int][t.1 as int]
            && v.weights[t.0 as int][t.1 as int] == t.2),
    decreases rows,
{
    if rows > 0 {
        let i = (rows - 1) as usize;
        let prev = v.arcs_upto((rows - 1) as nat);
        let row = v.row_arcs(i, v.nodes.len());
        let all = v.arcs_upto(rows);
        assert(all == prev + row);
        lemma_arcs_upto_members(v, (rows - 1) as nat, t);
        lemma_row_arcs_members(v, i, v.nodes.len(), t);
        if all.contains(t) {
            let k = choose|k: int| 0 <= k < all.len() && all[k] == t;
            if k < prev.len() {
                assert(prev[k] == t);
            } else {
                assert(row[k - prev.len()] == t);
            }
        }
        if prev.contains(t) {
            let k = choose|k: int| 0 <= k < prev.len() && prev[k] == t;
            assert(all[k] == t);
        }
        if row.contains(t) {
            let k = choose|k: int| 0 <= k < row.len() && row[k] == t;
            assert(all[prev.len() + k] == t);
        }
    }
}

/// The arcs visited are exactly the present arcs, and their ends are nodes.
pub proof fn lemma_arcs_members(v: DenseView)
    requires
        v.wf(),
    ensures
        forall|t: (usize, usize, i64)| #[trigger] v.arcs().contains(t) <==> v.arc_set().contains(t),
        arcs_within(v.arcs(), v.nodes.len()),
{
    assert forall|t: (usize, usize, i64)| #[trigger] v.arcs().contains(t) <==> v.arc_set().contains(
        t,
    ) by {
        lemma_arcs_upto_members(v, v.nodes.len(), t);
    }
    assert forall|k: int| 0 <= k < v.arcs().len() implies (#[trigger] v.arcs()[k]).0
        < v.nodes.len() && v.arcs()[k].1 < v.nodes.len() by {
        let t = v.arcs()[k];
        assert(v.arcs().contains(t));
        lemma_arcs_upto_members(v, v.nodes.len(), t);
    }
}

impl MatrixGraph {
    /// The canonical form: the graph's type, its node weights as
    /// [`Nodes::new`] stores them, and every present arc in row-major order.
    pub fn into_math_graph(self) -> (r: MathGraph)
        requires
            self@.wf(),
        ensures
            r.spec_graph_type() == self@.gtype,
            r.spec_nodes().spec_weights() == self@.nodes,
            r.spec_nodes().spec_count() == self@.nodes.len(),
            r.spec_nodes() is Compact <==> prefers_compact(self@.nodes),
            r.spec_arcs() is Weighted,
            r.spec_arcs().entries() == self@.arcs(),
            r.valid(),
    {
        proof {
            lemma_arcs_members(self@);
        }
        let arcs = Arcs::new_weighted(self.arc_iterator());
        let nodes = Nodes::new(self.nodes);
        MathGraph::new(nodes, arcs, self.gtype)
    }

    /// Rebuilds a graph from its canonical form: the node weights, then each
    /// arc replayed in order (for an undirected graph only from its smaller
    /// end). Fails, building nothing, on an index beyond the node count.
    pub fn from_math_graph(g: MathGraph) -> (r: Result<Self, DecodeError>)
        requires
            g.spec_nodes().spec_count() * g.spec_nodes().spec_count() <= isize::MAX,
            2 * g.spec_arcs().entries().len() <= usize::MAX,
        ensures
            r is Ok <==> g.valid(),
            r matches Ok(h) ==> h@ == decoded::<MatrixGraph>(
                g.spec_graph_type(),
                g.spec_nodes().spec_weights(),
                g.spec_arcs().entries(),
            ) && h@.wf(),
            r matches Err(e) ==> e == if !g.spec_nodes().valid() {
                DecodeError::NodeIndexOutOfRange
            } else {
                DecodeError::ArcIndexOutOfRange
            },
    {
        build::<MatrixGraph>(g)
    }
}


/// Inserting an arc that a matrix graph already holds changes nothing: the
/// weight stays and the arc count does not grow.
pub proof fn lemma_reinsert_keeps_state(g: DenseView, src: usize, dst: usize, w: i64)
    requires
        g.wf(),
        src < g.nodes.len(),
        dst < g.nodes.len(),
        g.present[src as int][dst as int],
    ensures
        g.add(src, dst, w) == g,
{
}

/// In an undirected matrix graph, inserting `src -> dst` with weight `w`
/// where no arc joined the two nodes makes both `(src, dst, w)` and
/// `(dst, src, w)` visited arcs.
pub proof fn lemma_undirected_insert_visible(g: DenseView, src: usize, dst: usize, w: i64)
    requires
        g.wf(),
        g.gtype == GraphType::Undirect,
        src < g.nodes.len(),
        dst < g.nodes.len(),
        !g.present[src as int][dst as int],
    ensures
        g.add(src, dst, w).arcs().contains((src, dst, w)),
        g.add(src, dst, w).arcs().contains((dst, src, w)),
{
    let h = g.add(src, dst, w);
    lemma_add_wf(g, src, dst, w);
    lemma_arcs_members(h);
    assert(!g.present[dst as int][src as int]);
    assert(h.arc_set().contains((src, dst, w)));
    assert(h.arc_set().contains((dst, src, w)));
}


/// Setting an arc of `s` in a matrix graph whose arcs all belong to `s`,
/// where `s` has one weight per pair of ends, adds exactly that arc.
proof fn lemma_make_arc_set(v: DenseView, t: (usize, usize, i64), s: Set<(usize, usize, i64)>)
    requires
        v.shaped(),
        t.0 < v.nodes.len(),
        t.1 < v.nodes.len(),
        functional(s),
        v.arc_set().subset_of(s),
        s.contains(t),
    ensures
        v.make_arc(t.0, t.1, t.2).arc_set() == v.arc_set().insert(t),
        v.make_arc(t.0, t.1, t.2).shaped(),
        v.make_arc(t.0, t.1, t.2).nodes == v.nodes,
        v.make_arc(t.0, t.1, t.2).gtype == v.gtype,
{
    let u = v.make_arc(t.0, t.1, t.2);
    let n = v.nodes.len();
    if v.present[t.0 as int][t.1 as int] {
        let old_t = (t.0, t.1, v.weights[t.0 as int][t.1 as int]);
        assert(v.arc_set().contains(old_t));
        assert(old_t == t);
        assert(v.arc_set().insert(t) =~= v.arc_set());
    } else {
        assert(DenseView::is_square(u.present, n));
        assert(DenseView::is_square(u.weights, n));
        assert(u.arc_set() =~= v.arc_set().insert(t));
    }
}

/// Replaying arcs on a matrix graph adds exactly the arcs that
/// [`inserted`] names, when they all belong to a set `s` with one weight per
/// pair of ends that also holds the graph's arcs.
pub proof fn lemma_replay_set(
    v: DenseView,
    gt: GraphType,
    arcs: Seq<(usize, usize, i64)>,
    s: Set<(usize, usize, i64)>,
)
    requires
        v.wf(),
        v.gtype == gt,
        arcs_within(arcs, v.nodes.len()),
        functional(s),
        v.arc_set().subset_of(s),
        inserted(gt, arcs).subset_of(s),
    ensures
        replay::<MatrixGraph>(v, gt, arcs).wf(),
        replay::<MatrixGraph>(v, gt, arcs).gtype == gt,
        replay::<MatrixGraph>(v, gt, arcs).nodes == v.nodes,
        replay::<MatrixGraph>(v, gt, arcs).arc_set() == v.arc_set().union(inserted(gt, arcs)),
    decreases arcs.len(),
{
    if arcs.len() == 0 {
        assert(inserted(gt, arcs) =~= Set::empty());
        assert(v.arc_set().union(inserted(gt, arcs)) =~= v.arc_set());
    } else {
        let prev_arcs = arcs.drop_last();
        assert forall|k: int| 0 <= k < prev_arcs.len() implies (#[trigger] prev_arcs[k]).0
            < v.nodes.len() && prev_arcs[k].1 < v.nodes.len() by {
            assert(prev_arcs[k] == arcs[k]);
        }
        lemma_inserted_step(gt, arcs);
        lemma_replay_set(v, gt, prev_arcs, s);
        let prev = replay::<MatrixGraph>(v, gt, prev_arcs);
        let a = arcs.last();
        assert(a == arcs[arcs.len() - 1]);
        if replays(gt, a.0, a.1) {
            assert(inserted(gt, arcs).contains(a));
            lemma_make_arc_set(prev, a, s);
            lemma_add_wf(prev, a.0, a.1, a.2);
            if gt == GraphType::Undirect {
                let m = crate::math_graph::mirror(a);
                assert(inserted(gt, arcs).contains(m));
                let once = prev.make_arc(a.0, a.1, a.2);
                lemma_make_arc_set(once, m, s);
            }
        }
        assert(replay::<MatrixGraph>(v, gt, arcs).arc_set() =~= v.arc_set().union(
            inserted(gt, arcs),
        ));
    }
}


/// The pairs joined by the arcs of a matrix graph are its present cells.
pub proof fn lemma_keys_are_present(v: DenseView)
    ensures
        arc_keys(v.arc_set()) == v.present_keys(),
{
    assert forall|k: (usize, usize)| #[trigger] arc_keys(v.arc_set()).contains(k) <==> v.present_keys().contains(
        k,
    ) by {
        if v.present_keys().contains(k) {
            assert(v.arc_set().contains((k.0, k.1, v.weights[k.0 as int][k.1 as int])));
        }
        if arc_keys(v.arc_set()).contains(k) {
            let t = choose|t: (usize, usize, i64)|
                #[trigger] v.arc_set().contains(t) && t.0 == k.0 && t.1 == k.1;
            assert(v.present[t.0 as int][t.1 as int]);
        }
    }
    assert(arc_keys(v.arc_set()) =~= v.present_keys());
}

/// Replaying arcs on a matrix graph makes present exactly the pairs that
/// [`inserted`] joins, whatever their weights.
pub proof fn lemma_replay_keys(v: DenseView, gt: GraphType, arcs: Seq<(usize, usize, i64)>)
    requires
        v.wf(),
        v.gtype == gt,
        arcs_within(arcs, v.nodes.len()),
    ensures
        replay::<MatrixGraph>(v, gt, arcs).wf(),
        replay::<MatrixGraph>(v, gt, arcs).gtype == gt,
        replay::<MatrixGraph>(v, gt, arcs).nodes == v.nodes,
        replay::<MatrixGraph>(v, gt, arcs).present_keys() == v.present_keys().union(
            arc_keys(inserted(gt, arcs)),
        ),
    decreases arcs.len(),
{
    if arcs.len() == 0 {
        assert(inserted(gt, arcs) =~= Set::empty());
        assert(arc_keys(inserted(gt, arcs)) =~= Set::empty());
        assert(v.present_keys().union(arc_keys(inserted(gt, arcs))) =~= v.present_keys());
    } else {
        let prev_arcs = arcs.drop_last();
        assert forall|k: int| 0 <= k < prev_arcs.len() implies (#[trigger] prev_arcs[k]).0
            < v.nodes.len() && prev_arcs[k].1 < v.nodes.len() by {
            assert(prev_arcs[k] == arcs[k]);
        }
        lemma_inserted_keys_step(gt, arcs);
        lemma_replay_keys(v, gt, prev_arcs);
        let prev = replay::<MatrixGraph>(v, gt, prev_arcs);
        let a = arcs.last();
        assert(a == arcs[arcs.len() - 1]);
        if replays(gt, a.0, a.1) {
            lemma_add_wf(prev, a.0, a.1, a.2);
            let once = prev.make_arc(a.0, a.1, a.2);
            assert(once.present_keys() =~= prev.present_keys().insert((a.0, a.1)));
            if gt == GraphType::Undirect {
                let twice = once.make_arc(a.1, a.0, a.2);
                assert(twice.present_keys() =~= once.present_keys().insert((a.1, a.0)));
            }
        }
        assert(replay::<MatrixGraph>(v, gt, arcs).present_keys() =~= v.present_keys().union(
            arc_keys(inserted(gt, arcs)),
        ));
    }
}

} // verus!
