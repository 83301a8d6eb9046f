//! A graph's text in the DOT language.
use vstd::prelude::*;

use crate::visitor::GraphVisitor;
use crate::{GetGraphType, GraphType};

verus! {

/// The character of the decimal digit `d`.
pub open spec fn digit_char(d: nat) -> char {
    seq!['0', '1', '2', '3', '4', '5', '6', '7', '8', '9'][d as int]
}

/// The decimal digits of `n`, most significant first, without leading
/// zeros.
pub open spec fn digits(n: nat) -> Seq<char>
    decreases n,
{
    if n < 10 {
        seq![digit_char(n)]
    } else {
        digits(n / 10).push(digit_char(n % 10))
    }
}

/// The decimal text of `n`, with a leading minus sign when it is negative.
pub open spec fn decimal(n: int) -> Seq<char> {
    if n < 0 {
        seq!['-'] + digits((-n) as nat)
    } else {
        digits(n as nat)
    }
}

/// Relies on `ToString` through `usize`'s `Display`: its decimal text.
#[verifier::external_body]
fn usize_text(n: usize) -> (r: String)
    ensures
        r@ == decimal(n as int),
{
    n.to_string()
}

/// Relies on `ToString` through `i64`'s `Display`: its decimal text, with a
/// minus sign when negative.
#[verifier::external_body]
fn i64_text(n: i64) -> (r: String)
    ensures
        r@ == decimal(n as int),
{
    n.to_string()
}

/// The statement for node `i` of weight `n`.
pub open spec fn node_line(i: usize, n: i64) -> Seq<char> {
    "\tn"@ + decimal(i as int) + " [label=\""@ + decimal(n as int) + "\"];"@
}

/// The statement for the arc `i -> j` of weight `n`.
pub open spec fn arc_line(i: usize, arrow: Seq<char>, j: usize, n: i64) -> Seq<char> {
    "\tn"@ + decimal(i as int) + " "@ + arrow + " n"@ + decimal(j as int) + " [label=\""@
        + decimal(n as int) + "\"];"@
}

pub open spec fn arrow_of(gt: GraphType) -> Seq<char> {
    match gt {
        GraphType::Direct => "->"@,
        GraphType::Undirect => "--"@,
    }
}

pub open spec fn keyword_of(gt: GraphType) -> Seq<char> {
    match gt {
        GraphType::Direct => "digraph"@,
        GraphType::Undirect => "graph"@,
    }
}

/// Whether the arc `i -> j` gets a statement: every arc of a directed graph,
/// and each edge of an undirected graph once, from its smaller end.
pub open spec fn drawn(gt: GraphType, i: usize, j: usize) -> bool {
    gt == GraphType::Direct || i <= j
}

/// One statement per node, in order.
pub open spec fn node_lines(nodes: Seq<(usize, i64)>) -> Seq<Seq<char>> {
    nodes.map_values(|p: (usize, i64)| node_line(p.0, p.1))
}

/// One statement per drawn arc, in order.
pub open spec fn arc_lines(gt: GraphType, arcs: Seq<(usize, usize, i64)>) -> Seq<Seq<char>>
    decreases arcs.len(),
{
    if arcs.len() == 0 {
        Seq::empty()
    } else {
        let a = arcs.last();
        arc_lines(gt, arcs.drop_last()) + if drawn(gt, a.0, a.1) {
            seq![arc_line(a.0, arrow_of(gt), a.1, a.2)]
        } else {
            Seq::empty()
        }
    }
}

/// The lines one after the other, separated by line breaks.
pub open spec fn joined(lines: Seq<Seq<char>>) -> Seq<char>
    decreases lines.len(),
{
    if lines.len() == 0 {
        Seq::empty()
    } else if lines.len() == 1 {
        lines[0]
    } else {
        joined(lines.drop_last()) + "\n"@ + lines.last()
    }
}

/// The DOT text of a graph of type `gt` with these nodes and arcs.
pub open spec fn dot_text(
    gt: GraphType,
    nodes: Seq<(usize, i64)>,
    arcs: Seq<(usize, usize, i64)>,
) -> Seq<char> {
    keyword_of(gt) + " {\n"@ + joined(node_lines(nodes) + arc_lines(gt, arcs)) + "\n}"@
}

/// The DOT text of `g`: a `digraph` or `graph` block with one statement per
/// node, then one per drawn arc.
pub fn to_dot_source<G: GraphVisitor + GetGraphType>(g: &G) -> (r: String)
    requires
        g.well_formed(),
    ensures
        r@ == dot_text(g.spec_graph_type(), g.spec_nodes_visited(), g.spec_arcs_visited()),
{
    let body = build_body(g);
    let gtype = get_graph_type(g);
    let mut r = String::from_str(gtype);
    r.append(" {\n");
    r.append(body.as_str());
    r.append("\n}");
    r
}

/// Collects the statements of a DOT body.
struct BuildBody {
    gtype: GraphType,
    str_buff: Vec<String>,
    arrow: &'static str,
}

impl BuildBody {
    spec fn lines(&self) -> Seq<Seq<char>> {
        self.str_buff@.map_values(|s: String| s@)
    }

    fn new(size: usize, arrow: &'static str, gtype: GraphType) -> (r: Self)
        ensures
            r.lines() == Seq::<Seq<char>>::empty(),
            r.arrow == arrow,
            r.gtype == gtype,
    {
        let str_buff = Vec::with_capacity(size);
        let r = BuildBody { gtype, str_buff, arrow };
        proof {
            assert(r.lines() =~= Seq::<Seq<char>>::empty());
        }
        r
    }

    fn add_node(&mut self, i: usize, n: i64)
        ensures
            final(self).lines() == old(self).lines().push(node_line(i, n)),
            final(self).arrow == old(self).arrow,
            final(self).gtype == old(self).gtype,
    {
        let mut line = String::from_str("\tn");
        let index = usize_text(i);
        line.append(index.as_str());
        line.append(" [label=\"");
        let weight = i64_text(n);
        line.append(weight.as_str());
        line.append("\"];");
        self.str_buff.push(line);
        proof {
            assert(self.lines() =~= old(self).lines().push(node_line(i, n)));
        }
    }

    fn add_arc(&mut self, i: usize, j: usize, n: i64)
        ensures
            final(self).lines() == if drawn(old(self).gtype, i, j) {
                old(self).lines().push(arc_line(i, old(self).arrow@, j, n))
            } else {
                old(self).lines()
            },
            final(self).arrow == old(self).arrow,
            final(self).gtype == old(self).gtype,
    {
        if arc_drawn(self.gtype, i, j) {
            let mut line = String::from_str("\tn");
            let src = usize_text(i);
            line.append(src.as_str());
            line.append(" ");
            line.append(self.arrow);
            line.append(" n");
            let dst = usize_text(j);
            line.append(dst.as_str());
            line.append(" [label=\"");
            let weight = i64_text(n);
            line.append(weight.as_str());
            line.append("\"];");
            self.str_buff.push(line);
            proof {
                assert(self.lines() =~= old(self).lines().push(arc_line(i, old(self).arrow@, j, n)));
            }
        }
    }

    fn build_str(self) -> (r: String)
        ensures
            r@ == joined(self.lines()),
    {
        let mut r = String::new();
        let mut k: usize = 0;
        while k < self.str_buff.len()
            invariant
                k <= self.str_buff@.len(),
                r@ == joined(self.lines().take(k as int)),
            decreases self.str_buff@.len() - k,
        {
            proof {
                assert(self.lines().take(k + 1).drop_last() =~= self.lines().take(k as int));
            }
            if k > 0 {
                r.append("\n");
            }
            r.append(self.str_buff[k].as_str());
            k += 1;
        }
        proof {
            assert(self.lines().take(k as int) =~= self.lines());
        }
        r
    }
}

fn build_body<G: GraphVisitor + GetGraphType>(g: &G) -> (r: String)
    requires
        g.well_formed(),
    ensures
        r@ == joined(
            node_lines(g.spec_nodes_visited()) + arc_lines(
                g.spec_graph_type(),
                g.spec_arcs_visited(),
            ),
        ),
{
    let arrow = get_arrow(g);
    let gtype = g.graph_type();
    let nodes = g.node_entries();
    let arcs = g.arc_entries();
    let mut str_builder = BuildBody::new(nodes.len(), arrow, gtype);
    let mut k: usize = 0;
    while k < nodes.len()
        invariant
            k <= nodes@.len(),
            str_builder.arrow == arrow,
            str_builder.gtype == gtype,
            str_builder.lines() == node_lines(nodes@.take(k as int)),
        decreases nodes@.len() - k,
    {
        let (i, n) = nodes[k];
        str_builder.add_node(i, n);
        k += 1;
        proof {
            assert(str_builder.lines() =~= node_lines(nodes@.take(k as int)));
        }
    }
    proof {
        assert(nodes@.take(k as int) =~= nodes@);
    }
    let ghost node_part = str_builder.lines();
    let mut k: usize = 0;
    while k < arcs.len()
        invariant
            k <= arcs@.len(),
            str_builder.arrow == arrow,
            str_builder.gtype == gtype,
            arrow@ == arrow_of(gtype),
            str_builder.lines() == node_part + arc_lines(gtype, arcs@.take(k as int)),
        decreases arcs@.len() - k,
    {
        let (i, j, n) = arcs[k];
        proof {
            assert(arcs@.take(k + 1).drop_last() =~= arcs@.take(k as int));
        }
        str_builder.add_arc(i, j, n);
        k += 1;
        proof {
            assert(str_builder.lines() =~= node_part + arc_lines(gtype, arcs@.take(k as int)));
        }
    }
    proof {
        assert(arcs@.take(k as int) =~= arcs@);
    }
    str_builder.build_str()
}

/// Whether the arc `i -> j` of a graph of type `gtype` gets a statement.
fn arc_drawn(gtype: GraphType, i: usize, j: usize) -> (r: bool)
    ensures
        r == drawn(gtype, i, j),
{
    match gtype {
        GraphType::Direct => true,
        GraphType::Undirect => i <= j,
    }
}

fn get_arrow<G: GetGraphType>(g: &G) -> (r: &'static str)
    ensures
        r@ == arrow_of(g.spec_graph_type()),
{
    select(g, "->", "--")
}

fn get_graph_type<G: GetGraphType>(g: &G) -> (r: &'static str)
    ensures
        r@ == keyword_of(g.spec_graph_type()),
{
    select(g, "digraph", "graph")
}

/// `direct` for a directed graph, `undirect` for an undirected one.
fn select<G: GetGraphType, T>(g: &G, direct: T, undirect: T) -> (r: T)
    ensures
        r == match g.spec_graph_type() {
            GraphType::Direct => direct,
            GraphType::Undirect => undirect,
        },
{
    match g.graph_type() {
        GraphType::Direct => direct,
        GraphType::Undirect => undirect,
    }
}

} // verus!
