//! What the layout's columns mean: on a graph whose audio wires form no
//! cycle and join only nodes of the graph, a node's column is exactly its
//! longest distance (in wires) from a source.

use vstd::prelude::*;

use crate::layout::{column_count, depth_get, layout_depths, next_depth, relax, relax_pass, wire_edges};
use crate::schema::{Graph, Node, NodeId};

verus! {

/// `a -> b` is one of the edges `es`.
pub open spec fn is_edge(es: Seq<(NodeId, NodeId)>, a: NodeId, b: NodeId) -> bool {
    exists|k: int| 0 <= k < es.len() && es[k] == (a, b)
}

/// `p` is a walk along the edges `es` (its length is `p.len() - 1`).
pub open spec fn is_walk(es: Seq<(NodeId, NodeId)>, p: Seq<NodeId>) -> bool {
    &&& p.len() > 0
    &&& forall|i: int| 0 <= i < p.len() - 1 ==> is_edge(es, #[trigger] p[i], p[i + 1])
}

/// The edges `es` never lead back to where they started.
pub open spec fn edges_acyclic(es: Seq<(NodeId, NodeId)>) -> bool {
    forall|p: Seq<NodeId>| #[trigger] is_walk(es, p) && p.len() > 1 ==> p[0] != p.last()
}

/// Whether the graph has a node with id `v`.
pub open spec fn is_node_of(g: Graph, v: NodeId) -> bool {
    exists|i: int| 0 <= i < g.nodes@.len() && (#[trigger] g.nodes@[i]).id == v
}

/// Every edge joins two nodes of the graph.
pub open spec fn edges_resolved(g: Graph, es: Seq<(NodeId, NodeId)>) -> bool {
    forall|k: int| 0 <= k < es.len() ==> is_node_of(g, (#[trigger] es[k]).0) && is_node_of(g, es[k].1)
}

/// Some walk of length `len` ends at `v`.
pub open spec fn reaches_with(es: Seq<(NodeId, NodeId)>, v: NodeId, len: nat) -> bool {
    exists|p: Seq<NodeId>| #[trigger] is_walk(es, p) && p.last() == v && p.len() == len + 1
}

/// Every depth is realised by a walk of that length.
pub open spec fn depths_sound(es: Seq<(NodeId, NodeId)>, d: Map<u64, usize>) -> bool {
    forall|v: NodeId| #[trigger] reaches_with(es, v, depth_get(d, v))
}

/// Every walk of at most `k` edges is no longer than the depth of its end.
pub open spec fn depths_cover(es: Seq<(NodeId, NodeId)>, d: Map<u64, usize>, k: nat) -> bool {
    forall|p: Seq<NodeId>|
        #[trigger] is_walk(es, p) && p.len() <= k + 1 ==> p.len() - 1 <= depth_get(d, p.last())
}

/// Every edge's head is deeper than its tail.
pub open spec fn depths_closed(es: Seq<(NodeId, NodeId)>, d: Map<u64, usize>) -> bool {
    forall|k: int| 0 <= k < es.len() ==> depth_get(d, (#[trigger] es[k]).1) >= depth_get(d, es[k].0) + 1
}

// ---------------------------------------------------------------------------
// Walks in an acyclic graph are short.
// ---------------------------------------------------------------------------

proof fn lemma_walk_sub(es: Seq<(NodeId, NodeId)>, p: Seq<NodeId>, i: int, j: int)
    requires
        is_walk(es, p),
        0 <= i <= j < p.len(),
    ensures
        is_walk(es, p.subrange(i, j + 1)),
{
    let q = p.subrange(i, j + 1);
    assert forall|k: int| 0 <= k < q.len() - 1 implies is_edge(es, #[trigger] q[k], q[k + 1]) by {
        assert(q[k] == p[i + k]);
        assert(q[k + 1] == p[i + k + 1]);
    }
}

proof fn lemma_walk_bounded(g: Graph, es: Seq<(NodeId, NodeId)>, p: Seq<NodeId>)
    requires
        edges_acyclic(es),
        edges_resolved(g, es),
        is_walk(es, p),
    ensures
        p.len() <= if g.nodes@.len() == 0 {
            1
        } else {
            g.nodes@.len()
        },
{
    if p.len() > 1 {
        assert forall|i: int, j: int| 0 <= i < p.len() && 0 <= j < p.len() && i != j implies p[i]
            != p[j] by {
            let (a, b) = if i < j {
                (i, j)
            } else {
                (j, i)
            };
            lemma_walk_sub(es, p, a, b);
            let q = p.subrange(a, b + 1);
            assert(q.len() > 1);
            assert(q[0] == p[a] && q.last() == p[b]);
        }
        p.unique_seq_to_set();
        let ids = g.nodes@.map_values(|n: crate::schema::Node| n.id);
        assert forall|v: NodeId| p.to_set().contains(v) implies ids.to_set().contains(v) by {
            let i = choose|i: int| 0 <= i < p.len() && p[i] == v;
            let k = if i < p.len() - 1 {
                i
            } else {
                i - 1
            };
            assert(is_edge(es, p[k], p[k + 1]));
            let e = choose|e: int| 0 <= e < es.len() && es[e] == (p[k], p[k + 1]);
            assert(is_node_of(g, es[e].0) && is_node_of(g, es[e].1));
            let m = choose|m: int| 0 <= m < g.nodes@.len() && (#[trigger] g.nodes@[m]).id == v;
            assert(ids[m] == v);
        }
        vstd::seq_lib::seq_to_set_is_finite(ids);
        vstd::set_lib::lemma_len_subset(p.to_set(), ids.to_set());
        ids.lemma_cardinality_of_set();
    }
}

// ---------------------------------------------------------------------------
// One relaxation pass.
// ---------------------------------------------------------------------------

proof fn lemma_pass(
    g: Graph,
    es: Seq<(NodeId, NodeId)>,
    s: Seq<(NodeId, NodeId)>,
    d: Map<u64, usize>,
    changed: bool,
)
    requires
        edges_acyclic(es),
        edges_resolved(g, es),
        g.nodes@.len() <= usize::MAX,
        forall|k: int| 0 <= k < s.len() ==> is_edge(es, (#[trigger] s[k]).0, s[k].1),
        depths_sound(es, d),
    ensures
        depths_sound(es, relax_pass(s, d, changed).0),
        forall|v: NodeId| #[trigger] depth_get(relax_pass(s, d, changed).0, v) >= depth_get(d, v),
        forall|k: int|
            0 <= k < s.len() ==> depth_get(relax_pass(s, d, changed).0, (#[trigger] s[k]).1)
                >= depth_get(d, s[k].0) + 1,
        !relax_pass(s, d, changed).1 ==> relax_pass(s, d, changed).0 == d,
        changed ==> relax_pass(s, d, changed).1,
    decreases s.len(),
{
    if s.len() > 0 {
        let (a, b) = s[0];
        assert(is_edge(es, s[0].0, s[0].1));
        let rest = s.drop_first();
        assert forall|k: int| 0 <= k < rest.len() implies is_edge(es, (#[trigger] rest[k]).0, rest[k].1) by {
            assert(rest[k] == s[k + 1]);
        }
        // A walk to `a` as long as its depth, plus the edge, is a walk to `b`;
        // walks are short, so the depth of `a` is far from the limit.
        assert(reaches_with(es, a, depth_get(d, a)));
        let p = choose|p: Seq<NodeId>| #[trigger] is_walk(es, p) && p.last() == a && p.len() == depth_get(d, a) + 1;
        let q = p.push(b);
        assert(is_walk(es, q)) by {
            assert forall|i: int| 0 <= i < q.len() - 1 implies is_edge(es, #[trigger] q[i], q[i + 1]) by {
                if i < p.len() - 1 {
                    assert(q[i] == p[i] && q[i + 1] == p[i + 1]);
                } else {
                    assert(q[i] == a && q[i + 1] == b);
                }
            }
        }
        lemma_walk_bounded(g, es, q);
        let nd = next_depth(depth_get(d, a));
        assert(nd == depth_get(d, a) + 1);
        if nd > depth_get(d, b) {
            let d2 = d.insert(b.0, nd as usize);
            assert(depth_get(d2, b) == nd);
            assert forall|v: NodeId| #[trigger] reaches_with(es, v, depth_get(d2, v)) by {
                if v.0 == b.0 {
                    assert(v == b);
                    assert(q.last() == b);
                } else {
                    assert(depth_get(d2, v) == depth_get(d, v));
                }
            }
            lemma_pass(g, es, rest, d2, true);
            let r = relax_pass(rest, d2, true).0;
            assert forall|v: NodeId| #[trigger] depth_get(r, v) >= depth_get(d, v) by {
                assert(depth_get(r, v) >= depth_get(d2, v));
                if v.0 != b.0 {
                    assert(depth_get(d2, v) == depth_get(d, v));
                } else {
                    assert(v == b);
                }
            }
            assert forall|k: int| 0 <= k < s.len() implies depth_get(r, (#[trigger] s[k]).1)
                >= depth_get(d, s[k].0) + 1 by {
                if k == 0 {
                    assert(depth_get(r, b) >= depth_get(d2, b));
                } else {
                    assert(rest[k - 1] == s[k]);
                    assert(depth_get(d2, s[k].0) >= depth_get(d, s[k].0)) by {
                        if s[k].0.0 == b.0 {
                            assert(s[k].0 == b);
                        }
                    }
                }
            }
        } else {
            lemma_pass(g, es, rest, d, changed);
            let r = relax_pass(rest, d, changed).0;
            assert forall|k: int| 0 <= k < s.len() implies depth_get(r, (#[trigger] s[k]).1)
                >= depth_get(d, s[k].0) + 1 by {
                if k == 0 {
                    assert(depth_get(r, b) >= depth_get(d, b));
                } else {
                    assert(rest[k - 1] == s[k]);
                }
            }
        }
    }
}

proof fn lemma_closed_covers(es: Seq<(NodeId, NodeId)>, d: Map<u64, usize>, p: Seq<NodeId>)
    requires
        depths_closed(es, d),
        is_walk(es, p),
    ensures
        p.len() - 1 <= depth_get(d, p.last()),
    decreases p.len(),
{
    if p.len() > 1 {
        let q = p.drop_last();
        assert(is_walk(es, q)) by {
            assert forall|i: int| 0 <= i < q.len() - 1 implies is_edge(es, #[trigger] q[i], q[i + 1]) by {
                assert(q[i] == p[i] && q[i + 1] == p[i + 1]);
            }
        }
        lemma_closed_covers(es, d, q);
        let n = p.len();
        assert(is_edge(es, p[n - 2], p[n - 1]));
        let k = choose|k: int| 0 <= k < es.len() && es[k] == (p[n - 2], p[n - 1]);
        assert(depth_get(d, es[k].1) >= depth_get(d, es[k].0) + 1);
    }
}

proof fn lemma_cover_step(
    es: Seq<(NodeId, NodeId)>,
    d: Map<u64, usize>,
    d2: Map<u64, usize>,
    k: nat,
)
    requires
        depths_cover(es, d, k),
        forall|v: NodeId| #[trigger] depth_get(d2, v) >= depth_get(d, v),
        forall|j: int| 0 <= j < es.len() ==> depth_get(d2, (#[trigger] es[j]).1) >= depth_get(d, es[j].0) + 1,
    ensures
        depths_cover(es, d2, k + 1),
{
    assert forall|p: Seq<NodeId>| #[trigger] is_walk(es, p) && p.len() <= k + 2 implies p.len() - 1
        <= depth_get(d2, p.last()) by {
        if p.len() <= k + 1 {
            assert(depth_get(d2, p.last()) >= depth_get(d, p.last()));
        } else {
            let q = p.drop_last();
            assert(is_walk(es, q)) by {
                assert forall|i: int| 0 <= i < q.len() - 1 implies is_edge(es, #[trigger] q[i], q[i + 1]) by {
                    assert(q[i] == p[i] && q[i + 1] == p[i + 1]);
                }
            }
            let n = p.len();
            assert(is_edge(es, p[n - 2], p[n - 1]));
            let j = choose|j: int| 0 <= j < es.len() && es[j] == (p[n - 2], p[n - 1]);
            assert(depth_get(d2, es[j].1) >= depth_get(d, es[j].0) + 1);
            assert(q.last() == p[n - 2]);
        }
    }
}

proof fn lemma_relax(
    g: Graph,
    es: Seq<(NodeId, NodeId)>,
    d: Map<u64, usize>,
    rounds: nat,
    k: nat,
)
    requires
        edges_acyclic(es),
        edges_resolved(g, es),
        g.nodes@.len() <= usize::MAX,
        depths_sound(es, d),
        depths_cover(es, d, k),
    ensures
        depths_sound(es, relax(es, d, rounds)),
        depths_cover(es, relax(es, d, rounds), k + rounds),
    decreases rounds,
{
    if rounds > 0 {
        assert forall|j: int| 0 <= j < es.len() implies is_edge(es, (#[trigger] es[j]).0, es[j].1) by {}
        lemma_pass(g, es, es, d, false);
        let (d2, changed) = relax_pass(es, d, false);
        lemma_cover_step(es, d, d2, k);
        if !changed {
            assert(depths_closed(es, d2));
            assert forall|p: Seq<NodeId>| #[trigger] is_walk(es, p) && p.len() <= k + rounds + 1 implies p.len() - 1 <= depth_get(d2, p.last()) by {
                lemma_closed_covers(es, d2, p);
            }
        } else {
            lemma_relax(g, es, d2, (rounds - 1) as nat, k + 1);
        }
    }
}

/// On a graph whose audio wires join only its own nodes and never form a
/// cycle, each node's layout column is its longest distance from a source:
/// no walk of audio wires into the node is longer than its column, and some
/// walk is exactly that long.
pub proof fn lemma_column_is_longest_path(g: Graph, v: NodeId)
    requires
        edges_acyclic(wire_edges(g.connections@)),
        edges_resolved(g, wire_edges(g.connections@)),
        is_node_of(g, v),
    ensures
        forall|p: Seq<NodeId>|
            #[trigger] is_walk(wire_edges(g.connections@), p) && p.last() == v ==> p.len() - 1
                <= depth_get(layout_depths(g), v),
        reaches_with(wire_edges(g.connections@), v, depth_get(layout_depths(g), v)),
{
    let es = wire_edges(g.connections@);
    let d0 = Map::<u64, usize>::empty();
    assert forall|u: NodeId| #[trigger] reaches_with(es, u, depth_get(d0, u)) by {
        let p = seq![u];
        assert(is_walk(es, p));
    }
    assert(depths_cover(es, d0, 0));
    assert(g.nodes@.len() <= usize::MAX) by {
        assert(g.nodes@.len() == g.nodes.len());
    }
    lemma_relax(g, es, d0, g.nodes@.len(), 0);
    let d = layout_depths(g);
    assert forall|p: Seq<NodeId>| #[trigger] is_walk(es, p) && p.last() == v implies p.len() - 1 <= depth_get(d, v) by {
        lemma_walk_bounded(g, es, p);
    }
}

proof fn lemma_column_count_grows(nodes: Seq<Node>, d: Map<u64, usize>, c: nat, i: int, j: int)
    requires
        0 <= i < j <= nodes.len(),
        depth_get(d, nodes[i].id) == c,
    ensures
        column_count(nodes.subrange(0, i), d, c) < column_count(nodes.subrange(0, j), d, c),
    decreases j - i,
{
    let pre = nodes.subrange(0, j);
    assert(pre.drop_last() =~= nodes.subrange(0, j - 1));
    assert(pre.last() == nodes[j - 1]);
    if j - 1 > i {
        lemma_column_count_grows(nodes, d, c, i, j - 1);
    }
}

/// Nodes sharing a column stack downwards in declaration order: of two
/// nodes in the same column, the one declared first gets the smaller row.
pub proof fn lemma_rows_stack_in_order(g: Graph, i: int, j: int)
    requires
        0 <= i < j < g.nodes@.len(),
        depth_get(layout_depths(g), g.nodes@[i].id) == depth_get(layout_depths(g), g.nodes@[j].id),
    ensures
        column_count(
            g.nodes@.subrange(0, i),
            layout_depths(g),
            depth_get(layout_depths(g), g.nodes@[i].id),
        ) < column_count(
            g.nodes@.subrange(0, j),
            layout_depths(g),
            depth_get(layout_depths(g), g.nodes@[j].id),
        ),
{
    lemma_column_count_grows(g.nodes@, layout_depths(g), depth_get(layout_depths(g), g.nodes@[i].id), i, j);
}

} // verus!
