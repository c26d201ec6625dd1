//! Simple left-to-right layered placement for loaded graphs (the document
//! stores no positions). Each node's column is its longest distance from a
//! source along audio wires; rows stack the nodes that share a column, in
//! declaration order. World coordinates are a fixed affine image of the
//! (column, row) grid cell.

use vstd::prelude::*;
use std::collections::HashMap;

use crate::schema::{Connection, ConnectionSink, ConnectionSource, Graph, Node, NodeId};

verus! {

broadcast use vstd::std_specs::hash::group_hash_axioms;

/// The grid cell assigned to one node.
#[derive(Debug, Clone, Copy, PartialEq, Eq, Structural)]
pub struct LayoutCell {
    pub node: NodeId,
    pub column: usize,
    pub row: usize,
}

/// The node-to-node audio edge of a wire, if it is one (wires into
/// parameters or boundary ports are ignored).
pub open spec fn wire_edge(c: Connection) -> Seq<(NodeId, NodeId)> {
    match (c.from, c.to) {
        (ConnectionSource::NodeOutput { node: a, .. }, ConnectionSink::NodeInput { node: b, .. }) => seq![(a, b)],
        _ => seq![],
    }
}

/// The node-to-node audio edges of the wires `cs`, in order.
pub open spec fn wire_edges(cs: Seq<Connection>) -> Seq<(NodeId, NodeId)>
    decreases cs.len(),
{
    if cs.len() == 0 {
        seq![]
    } else {
        wire_edges(cs.drop_last()) + wire_edge(cs.last())
    }
}

/// A depth table read with default 0.
pub open spec fn depth_get(d: Map<u64, usize>, k: NodeId) -> nat {
    if d.contains_key(k.0) {
        d[k.0] as nat
    } else {
        0
    }
}

/// One more than `x`, held at `usize::MAX` (a depth never wraps).
pub open spec fn next_depth(x: nat) -> nat {
    if x < usize::MAX {
        x + 1
    } else {
        usize::MAX as nat
    }
}

/// One relaxation pass over `es` in order: each edge `a -> b` raises `b` to
/// `depth(a) + 1` (held at `usize::MAX`) when that is larger. Also reports
/// whether anything changed.
pub open spec fn relax_pass(es: Seq<(NodeId, NodeId)>, d: Map<u64, usize>, changed: bool) -> (
    Map<u64, usize>,
    bool,
)
    decreases es.len(),
{
    if es.len() == 0 {
        (d, changed)
    } else {
        let (a, b) = es[0];
        let nd = next_depth(depth_get(d, a));
        if nd > depth_get(d, b) {
            relax_pass(es.drop_first(), d.insert(b.0, nd as usize), true)
        } else {
            relax_pass(es.drop_first(), d, changed)
        }
    }
}

/// Up to `rounds` relaxation passes, stopping early at a fixed point.
pub open spec fn relax(es: Seq<(NodeId, NodeId)>, d: Map<u64, usize>, rounds: nat) -> Map<
    u64,
    usize,
>
    decreases rounds,
{
    if rounds == 0 {
        d
    } else {
        let (d2, changed) = relax_pass(es, d, false);
        if !changed {
            d2
        } else {
            relax(es, d2, (rounds - 1) as nat)
        }
    }
}

/// The column of each node: bounded relaxation (as many passes as the graph
/// has nodes) from all-zero depths.
pub open spec fn layout_depths(g: Graph) -> Map<u64, usize> {
    relax(wire_edges(g.connections@), Map::empty(), g.nodes@.len())
}

/// How many of `nodes` sit in column `c`.
pub open spec fn column_count(nodes: Seq<Node>, d: Map<u64, usize>, c: nat) -> nat
    decreases nodes.len(),
{
    if nodes.len() == 0 {
        0
    } else {
        column_count(nodes.drop_last(), d, c) + if depth_get(d, nodes.last().id) == c {
            1nat
        } else {
            0nat
        }
    }
}

/// The cell of the `i`th node: its column, and how many earlier nodes share
/// that column.
pub open spec fn layout_cell(g: Graph, i: int) -> LayoutCell {
    let d = layout_depths(g);
    let c = depth_get(d, g.nodes@[i].id);
    LayoutCell {
        node: g.nodes@[i].id,
        column: c as usize,
        row: column_count(g.nodes@.subrange(0, i), d, c) as usize,
    }
}

/// A pass that reports no change left the table as it was.
proof fn lemma_pass_unchanged(es: Seq<(NodeId, NodeId)>, d: Map<u64, usize>, changed: bool)
    ensures
        !relax_pass(es, d, changed).1 ==> relax_pass(es, d, changed).0 == d && !changed,
    decreases es.len(),
{
    if es.len() > 0 {
        let (a, b) = es[0];
        let nd = next_depth(depth_get(d, a));
        if nd > depth_get(d, b) {
            lemma_pass_unchanged(es.drop_first(), d.insert(b.0, nd as usize), true);
        } else {
            lemma_pass_unchanged(es.drop_first(), d, changed);
        }
    }
}

/// The node-to-node audio edges of a graph's wires.
fn collect_edges(g: &Graph) -> (es: Vec<(NodeId, NodeId)>)
    ensures
        es@ == wire_edges(g.connections@),
{
    let mut es: Vec<(NodeId, NodeId)> = Vec::new();
    let n = g.connections.len();
    let mut i: usize = 0;
    while i < n
        invariant
            n == g.connections@.len(),
            0 <= i <= n,
            es@ == wire_edges(g.connections@.subrange(0, i as int)),
        decreases n - i,
    {
        let c = &g.connections[i];
        proof {
            assert(g.connections@.subrange(0, i + 1).drop_last() =~= g.connections@.subrange(0, i as int));
        }
        match (&c.from, &c.to) {
            (ConnectionSource::NodeOutput { node: a, .. }, ConnectionSink::NodeInput { node: b, .. }) => {
                es.push((*a, *b));
            },
            _ => {},
        }
        assert(es@ =~= wire_edges(g.connections@.subrange(0, i + 1)));
        i += 1;
    }
    assert(g.connections@.subrange(0, n as int) =~= g.connections@);
    es
}

fn depth_lookup(d: &HashMap<u64, usize>, k: NodeId) -> (r: usize)
    ensures
        r as nat == depth_get(d@, k),
{
    match d.get(&k.0) {
        Some(v) => *v,
        None => 0,
    }
}

/// The grid cell of every node, in declaration order: columns by longest
/// distance from a source (bounded relaxation; cycles are capped), rows by
/// order of appearance within each column.
pub fn layout_grid(graph: &Graph) -> (cells: Vec<LayoutCell>)
    ensures
        cells@.len() == graph.nodes@.len(),
        forall|i: int| 0 <= i < cells@.len() ==> cells@[i] == layout_cell(*graph, i),
{
    let edges = collect_edges(graph);
    let ghost es = edges@;
    let ne = edges.len();
    let n = graph.nodes.len();

    // Longest-path depth via bounded relaxation (handles DAGs; caps cycles).
    let mut depth: HashMap<u64, usize> = HashMap::new();
    let mut round: usize = 0;
    while round < n
        invariant
            es == wire_edges(graph.connections@),
            edges@ == es,
            ne == es.len(),
            n == graph.nodes@.len(),
            0 <= round <= n,
            relax(es, Map::empty(), n as nat) == relax(es, depth@, (n - round) as nat),
        ensures
            relax(es, Map::empty(), n as nat) == depth@,
        decreases n - round,
    {
        let ghost d0 = depth@;
        let mut changed = false;
        let mut j: usize = 0;
        assert(es.skip(0) =~= es);
        while j < ne
            invariant
                es == wire_edges(graph.connections@),
                edges@ == es,
                ne == es.len(),
                0 <= j <= ne,
                relax_pass(es, d0, false) == relax_pass(es.skip(j as int), depth@, changed),
            decreases ne - j,
        {
            proof {
                assert(es.skip(j as int).drop_first() =~= es.skip(j + 1));
                assert(es.skip(j as int)[0] == es[j as int]);
            }
            let (from, to) = edges[j];
            let cur = depth_lookup(&depth, from);
            let d = if cur < usize::MAX {
                cur + 1
            } else {
                usize::MAX
            };
            if d > depth_lookup(&depth, to) {
                depth.insert(to.0, d);
                changed = true;
            }
            j += 1;
        }
        proof {
            assert(es.skip(ne as int) =~= Seq::<(NodeId, NodeId)>::empty());
            lemma_pass_unchanged(es, d0, false);
        }
        if !changed {
            assert(relax(es, depth@, (n - round) as nat) == depth@);
            break;
        }
        round += 1;
    }
    let ghost dep = depth@;
    assert(dep == layout_depths(*graph));

    // Assign rows per column in node declaration order (stable).
    let mut row_in_col: HashMap<usize, usize> = HashMap::new();
    let mut out: Vec<LayoutCell> = Vec::new();
    let mut i: usize = 0;
    while i < n
        invariant
            n == graph.nodes@.len(),
            dep == layout_depths(*graph),
            depth@ == dep,
            0 <= i <= n,
            out@.len() == i,
            forall|k: int| 0 <= k < i ==> out@[k] == layout_cell(*graph, k),
            forall|c: usize|
                (if row_in_col@.contains_key(c) {
                    row_in_col@[c] as nat
                } else {
                    0nat
                }) == column_count(graph.nodes@.subrange(0, i as int), dep, c as nat),
            forall|c: usize| #[trigger] row_in_col@.contains_key(c) ==> row_in_col@[c] <= i,
        decreases n - i,
    {
        let node = &graph.nodes[i];
        let col = depth_lookup(&depth, node.id);
        let row = match row_in_col.get(&col) {
            Some(r) => *r,
            None => 0,
        };
        proof {
            let pre = graph.nodes@.subrange(0, i as int);
            assert(graph.nodes@.subrange(0, i + 1).drop_last() =~= pre);
            assert(graph.nodes@.subrange(0, i + 1).last() == *node);
        }
        let ghost before = row_in_col@;
        row_in_col.insert(col, row + 1);
        proof {
            let pre = graph.nodes@.subrange(0, i as int);
            let post = graph.nodes@.subrange(0, i + 1);
            assert forall|c: usize|
                (if row_in_col@.contains_key(c) {
                    row_in_col@[c] as nat
                } else {
                    0nat
                }) == column_count(post, dep, c as nat) by {
                assert(column_count(post, dep, c as nat) == column_count(pre, dep, c as nat) + if depth_get(dep, node.id) == c as nat {
                    1nat
                } else {
                    0nat
                });
                if c != col {
                    assert(row_in_col@.contains_key(c) == before.contains_key(c));
                }
            }
        }
        out.push(LayoutCell { node: node.id, column: col, row });
        i += 1;
    }
    out
}

} // verus!
