//! What an empty validation report means: a library passes
//! [`SampleLibrary::validate`](crate::schema::SampleLibrary) with no defect
//! exactly when its root is known, every wire and node of every sample is
//! well-formed, and no chain of sample references leads back to where it
//! started.

use vstd::prelude::*;

use crate::enums::OscillatorType;
use crate::schema::{
    find_node_kind, find_sample, has_node_id, has_port_id, spec_can_wire, Connection,
    ConnectionSink, ConnectionSource, Graph, Node, NodeKind, Sample, SampleId, SampleLibrary,
};
use crate::validate::{
    color_in, connection_errors, sink_errors, source_errors, connections_errors, dfs, dfs_all, dfs_nodes, first_index,
    graph_errors, initial_state, node_errors, nodes_errors, root_errors, sample_nodes,
    samples_errors, set_in, spec_validate, whites, Color,
    SchemaError, lemma_first_index,
};

verus! {

// ---------------------------------------------------------------------------
// The reference graph between samples.
// ---------------------------------------------------------------------------

/// Whether the library has a sample with id `v`.
pub open spec fn known(lib: SampleLibrary, v: SampleId) -> bool {
    find_sample(lib.samples@, v) is Some
}

/// Whether node `n` embeds sample `v`.
pub open spec fn refers_to(n: Node, v: SampleId) -> bool {
    match n.kind {
        NodeKind::Sample(r) => r.sample == v,
        _ => false,
    }
}

/// The graph of sample `u` embeds a reference to the known sample `v`.
pub open spec fn ref_edge(lib: SampleLibrary, u: SampleId, v: SampleId) -> bool {
    &&& known(lib, v)
    &&& exists|i: int|
        0 <= i < sample_nodes(lib, u).len() && refers_to(#[trigger] sample_nodes(lib, u)[i], v)
}

/// Consecutive entries of `p` are joined by reference edges.
pub open spec fn path_edges(lib: SampleLibrary, p: Seq<SampleId>) -> bool {
    forall|i: int| 0 <= i < p.len() - 1 ==> ref_edge(lib, #[trigger] p[i], p[i + 1])
}

/// `path` is a closed chain of sample references: each sample embeds the
/// next, and the last embeds the first.
pub open spec fn is_ref_cycle(lib: SampleLibrary, path: Seq<SampleId>) -> bool {
    &&& path.len() > 0
    &&& path_edges(lib, path)
    &&& ref_edge(lib, path.last(), path[0])
}

/// Some chain of sample references leads back to where it started.
pub open spec fn has_ref_cycle(lib: SampleLibrary) -> bool {
    exists|path: Seq<SampleId>| is_ref_cycle(lib, path)
}

// ---------------------------------------------------------------------------
// Well-formedness in direct terms.
// ---------------------------------------------------------------------------

/// A wire whose endpoints resolve and whose signal kinds match.
pub open spec fn connection_ok(g: Graph, c: Connection) -> bool {
    &&& match c.from {
        ConnectionSource::NodeOutput { node, .. } => has_node_id(g.nodes@, node),
        ConnectionSource::Inlet { port } => has_port_id(g.inlets@, port.0@),
        ConnectionSource::SeqOut { node, .. } => has_node_id(g.nodes@, node),
    }
    &&& match c.to {
        ConnectionSink::NodeInput { node, .. } => has_node_id(g.nodes@, node),
        ConnectionSink::NodeParam { node, .. } => has_node_id(g.nodes@, node),
        ConnectionSink::Outlet { port } => has_port_id(g.outlets@, port.0@),
        ConnectionSink::Trigger { node } => has_node_id(g.nodes@, node),
    }
    &&& spec_can_wire(g, c)
}

/// A node that is neither a custom oscillator without harmonics nor a
/// reference to a sample the library lacks.
pub open spec fn node_ok(lib: SampleLibrary, n: Node) -> bool {
    match n.kind {
        NodeKind::Oscillator(o) => !(o.oscillator_type == OscillatorType::Custom
            && o.harmonic_count == 0),
        NodeKind::Sample(r) => known(lib, r.sample),
        _ => true,
    }
}

/// A sample whose every wire and node is well-formed.
pub open spec fn sample_ok(lib: SampleLibrary, s: Sample) -> bool {
    &&& forall|j: int|
        0 <= j < s.graph.connections@.len() ==> connection_ok(
            s.graph,
            #[trigger] s.graph.connections@[j],
        )
    &&& forall|j: int| 0 <= j < s.graph.nodes@.len() ==> node_ok(lib, #[trigger] s.graph.nodes@[j])
}

/// A structurally sound library.
pub open spec fn library_is_valid(lib: SampleLibrary) -> bool {
    &&& (lib.root matches Some(r) ==> known(lib, r))
    &&& forall|i: int| 0 <= i < lib.samples@.len() ==> sample_ok(lib, #[trigger] lib.samples@[i])
    &&& !has_ref_cycle(lib)
}

// ---------------------------------------------------------------------------
// Per-sample errors.
// ---------------------------------------------------------------------------

proof fn lemma_connection_errors(sid: SampleId, g: Graph, c: Connection)
    ensures
        connection_errors(sid, g, c).len() == 0 <==> connection_ok(g, c),
{
}

proof fn lemma_connections_errors(sid: SampleId, g: Graph, cs: Seq<Connection>)
    ensures
        connections_errors(sid, g, cs).len() == 0 <==> forall|j: int|
            0 <= j < cs.len() ==> connection_ok(g, #[trigger] cs[j]),
    decreases cs.len(),
{
    if cs.len() > 0 {
        lemma_connections_errors(sid, g, cs.drop_last());
        lemma_connection_errors(sid, g, cs.last());
        if connections_errors(sid, g, cs).len() == 0 {
            assert forall|j: int| 0 <= j < cs.len() implies connection_ok(g, #[trigger] cs[j]) by {
                if j < cs.len() - 1 {
                    assert(cs[j] == cs.drop_last()[j]);
                }
            }
        }
        if forall|j: int| 0 <= j < cs.len() ==> connection_ok(g, #[trigger] cs[j]) {
            assert forall|j: int|
                0 <= j < cs.drop_last().len() implies connection_ok(
                g,
                #[trigger] cs.drop_last()[j],
            ) by {
                assert(cs[j] == cs.drop_last()[j]);
            }
            assert(connection_ok(g, cs[cs.len() - 1]));
        }
    }
}

proof fn lemma_nodes_errors(sid: SampleId, lib: SampleLibrary, ns: Seq<Node>)
    ensures
        nodes_errors(sid, lib, ns).len() == 0 <==> forall|j: int|
            0 <= j < ns.len() ==> node_ok(lib, #[trigger] ns[j]),
    decreases ns.len(),
{
    if ns.len() > 0 {
        lemma_nodes_errors(sid, lib, ns.drop_last());
        assert(node_errors(sid, lib, ns.last()).len() == 0 <==> node_ok(lib, ns.last()));
        if nodes_errors(sid, lib, ns).len() == 0 {
            assert forall|j: int| 0 <= j < ns.len() implies node_ok(lib, #[trigger] ns[j]) by {
                if j < ns.len() - 1 {
                    assert(ns[j] == ns.drop_last()[j]);
                }
            }
        }
        if forall|j: int| 0 <= j < ns.len() ==> node_ok(lib, #[trigger] ns[j]) {
            assert forall|j: int| 0 <= j < ns.drop_last().len() implies node_ok(
                lib,
                #[trigger] ns.drop_last()[j],
            ) by {
                assert(ns[j] == ns.drop_last()[j]);
            }
            assert(node_ok(lib, ns[ns.len() - 1]));
        }
    }
}

proof fn lemma_samples_errors(lib: SampleLibrary, ss: Seq<Sample>)
    ensures
        samples_errors(lib, ss).len() == 0 <==> forall|i: int|
            0 <= i < ss.len() ==> sample_ok(lib, #[trigger] ss[i]),
    decreases ss.len(),
{
    if ss.len() > 0 {
        lemma_samples_errors(lib, ss.drop_last());
        let s = ss.last();
        lemma_connections_errors(s.id, s.graph, s.graph.connections@);
        lemma_nodes_errors(s.id, lib, s.graph.nodes@);
        assert(graph_errors(lib, s).len() == 0 <==> sample_ok(lib, s));
        if samples_errors(lib, ss).len() == 0 {
            assert forall|i: int| 0 <= i < ss.len() implies sample_ok(lib, #[trigger] ss[i]) by {
                if i < ss.len() - 1 {
                    assert(ss[i] == ss.drop_last()[i]);
                }
            }
        }
        if forall|i: int| 0 <= i < ss.len() ==> sample_ok(lib, #[trigger] ss[i]) {
            assert forall|i: int| 0 <= i < ss.drop_last().len() implies sample_ok(
                lib,
                #[trigger] ss.drop_last()[i],
            ) by {
                assert(ss[i] == ss.drop_last()[i]);
            }
            assert(sample_ok(lib, ss[ss.len() - 1]));
        }
    }
}

// ---------------------------------------------------------------------------
// The colour table during the search.
// ---------------------------------------------------------------------------

/// The table lists the library's samples' ids, in order.
pub open spec fn same_ids(lib: SampleLibrary, st: Seq<(SampleId, Color)>) -> bool {
    &&& st.len() == lib.samples@.len()
    &&& forall|k: int| 0 <= k < st.len() ==> (#[trigger] st[k]).0 == lib.samples@[k].id
}

/// The search's bookkeeping: gray samples are exactly the current path `p`,
/// black samples exactly the finished list `f`.
pub open spec fn search_inv(
    lib: SampleLibrary,
    st: Seq<(SampleId, Color)>,
    p: Seq<SampleId>,
    f: Seq<SampleId>,
) -> bool {
    &&& same_ids(lib, st)
    &&& forall|v: SampleId| known(lib, v) ==> (color_in(st, v) == Some(Color::Gray) <==> p.contains(v))
    &&& forall|v: SampleId| known(lib, v) ==> (color_in(st, v) == Some(Color::Black) <==> f.contains(v))
    &&& forall|v: SampleId| p.contains(v) ==> known(lib, v)
    &&& forall|v: SampleId| f.contains(v) ==> known(lib, v)
    &&& path_edges(lib, p)
    &&& f.no_duplicates()
}

/// Every reference out of a finished sample points to a sample that
/// finished earlier.
pub open spec fn finish_ordered(lib: SampleLibrary, f: Seq<SampleId>) -> bool {
    forall|i: int, v: SampleId|
        0 <= i < f.len() && #[trigger] ref_edge(lib, f[i], v) ==> f.contains(v) && f.index_of(v) < i
}

proof fn lemma_find_sample(ss: Seq<Sample>, v: SampleId)
    ensures
        find_sample(ss, v) is Some <==> exists|k: int| 0 <= k < ss.len() && (#[trigger] ss[k]).id == v,
    decreases ss.len(),
{
    if ss.len() > 0 {
        lemma_find_sample(ss.drop_first(), v);
        if exists|k: int| 0 <= k < ss.len() && (#[trigger] ss[k]).id == v {
            let k = choose|k: int| 0 <= k < ss.len() && (#[trigger] ss[k]).id == v;
            if k > 0 {
                assert(ss.drop_first()[k - 1].id == v);
            }
        }
        if find_sample(ss.drop_first(), v) is Some {
            let k = choose|k: int|
                0 <= k < ss.drop_first().len() && (#[trigger] ss.drop_first()[k]).id == v;
            assert(ss[k + 1].id == v);
        }
    }
}

proof fn lemma_first_index_ids(st: Seq<(SampleId, Color)>, t: Seq<(SampleId, Color)>, id: SampleId)
    requires
        st.len() == t.len(),
        forall|k: int| 0 <= k < st.len() ==> (#[trigger] st[k]).0 == t[k].0,
    ensures
        first_index(st, id) == first_index(t, id),
    decreases st.len(),
{
    if st.len() > 0 {
        assert(st[0].0 == t[0].0);
        lemma_first_index_ids(st.drop_first(), t.drop_first(), id);
    }
}

/// A table with the library's ids has an entry for exactly the known ids.
proof fn lemma_color_known(lib: SampleLibrary, st: Seq<(SampleId, Color)>, v: SampleId)
    requires
        same_ids(lib, st),
    ensures
        color_in(st, v) is Some <==> known(lib, v),
{
    lemma_first_index(st, v);
    lemma_find_sample(lib.samples@, v);
    if known(lib, v) {
        let k = choose|k: int| 0 <= k < lib.samples@.len() && (#[trigger] lib.samples@[k]).id == v;
        assert(st[k].0 == v);
    }
}

/// Recolouring `id` changes only `id`'s colour, and keeps the ids.
proof fn lemma_set_in(st: Seq<(SampleId, Color)>, id: SampleId, c: Color, v: SampleId)
    ensures
        set_in(st, id, c).len() == st.len(),
        forall|k: int| 0 <= k < st.len() ==> (#[trigger] set_in(st, id, c)[k]).0 == st[k].0,
        color_in(set_in(st, id, c), v) == if v == id && color_in(st, id) is Some {
            Some(c)
        } else {
            color_in(st, v)
        },
{
    lemma_first_index(st, id);
    lemma_first_index(st, v);
    let t = set_in(st, id, c);
    assert forall|k: int| 0 <= k < st.len() implies (#[trigger] t[k]).0 == st[k].0 by {}
    lemma_first_index_ids(t, st, v);
    let kv = first_index(st, v);
    let ki = first_index(st, id);
    if kv >= 0 && ki >= 0 && v != id {
        assert(st[kv].0 != st[ki].0);
        assert(t[kv] == st[kv]);
    }
}

proof fn lemma_index_of_no_dup(f: Seq<SampleId>, i: int)
    requires
        f.no_duplicates(),
        0 <= i < f.len(),
    ensures
        f.contains(f[i]),
        f.index_of(f[i]) == i,
{
    assert(f[i] == f[i]);
    let k = f.index_of(f[i]);
    assert(0 <= k < f.len() && f[k] == f[i]);
}

proof fn lemma_push_keeps_order(lib: SampleLibrary, f: Seq<SampleId>, x: SampleId)
    requires
        f.no_duplicates(),
        !f.contains(x),
        finish_ordered(lib, f),
        forall|v: SampleId| ref_edge(lib, x, v) ==> f.contains(v),
    ensures
        f.push(x).no_duplicates(),
        finish_ordered(lib, f.push(x)),
{
    let g = f.push(x);
    assert forall|i: int, j: int| 0 <= i < g.len() && 0 <= j < g.len() && i != j implies g[i]
        != g[j] by {
        if i == f.len() {
            assert(f.contains(g[j]));
        } else if j == f.len() {
            assert(f.contains(g[i]));
        }
    }
    assert forall|i: int, v: SampleId|
        0 <= i < g.len() && #[trigger] ref_edge(lib, g[i], v) implies g.contains(v) && g.index_of(v)
        < i by {
        if i == f.len() {
            assert(g[i] == x);
            assert(ref_edge(lib, x, v));
            assert(f.contains(v));
            let k = choose|k: int| 0 <= k < f.len() && f[k] == v;
            assert(g[k] == v);
            lemma_index_of_no_dup(g, k);
        } else {
            assert(g[i] == f[i]);
            assert(ref_edge(lib, f[i], v));
            let k = f.index_of(v);
            lemma_index_of_no_dup(f, k);
            assert(g[k] == v);
            lemma_index_of_no_dup(g, k);
        }
    }
}

/// A finished list ordered by references, holding every sample of a cycle,
/// is impossible.
proof fn lemma_ordered_acyclic(lib: SampleLibrary, f: Seq<SampleId>, path: Seq<SampleId>)
    requires
        f.no_duplicates(),
        finish_ordered(lib, f),
        forall|v: SampleId| known(lib, v) ==> f.contains(v),
    ensures
        !is_ref_cycle(lib, path),
{
    if !is_ref_cycle(lib, path) {
        return;
    }
    let n = path.len();
    assert(ref_edge(lib, path[n - 1], path[0]));
    assert(f.contains(path[n - 1])) by {
        if n > 1 {
            assert(ref_edge(lib, path[n - 2], path[n - 1]));
        }
    }
    let q0 = f.index_of(path[0]);
    let ql = f.index_of(path[n - 1]);
    lemma_index_of_no_dup(f, ql);
    assert(f[ql] == path[n - 1]);
    assert(ref_edge(lib, f[ql], path[0]));
    assert(q0 < ql);
    lemma_index_of_no_dup(f, q0);
    lemma_path_descends(lib, f, path, n - 1);
}

/// Along a path of references, positions in an ordered finished list
/// strictly decrease.
proof fn lemma_path_descends(lib: SampleLibrary, f: Seq<SampleId>, path: Seq<SampleId>, i: int)
    requires
        f.no_duplicates(),
        finish_ordered(lib, f),
        path_edges(lib, path),
        0 <= i < path.len(),
        f.contains(path[0]),
    ensures
        f.contains(path[i]),
        f.index_of(path[i]) <= f.index_of(path[0]) - i,
    decreases i,
{
    if i > 0 {
        lemma_path_descends(lib, f, path, i - 1);
        let qi = f.index_of(path[i - 1]);
        lemma_index_of_no_dup(f, qi);
        assert(ref_edge(lib, path[i - 1], path[i]));
        assert(ref_edge(lib, f[qi], path[i]));
    }
}

// ---------------------------------------------------------------------------
// The search, step by step.
// ---------------------------------------------------------------------------

proof fn lemma_dfs(
    lib: SampleLibrary,
    id: SampleId,
    st: Seq<(SampleId, Color)>,
    errs: Seq<SchemaError>,
    b: nat,
    p: Seq<SampleId>,
    f: Seq<SampleId>,
) -> (f2: Seq<SampleId>)
    requires
        search_inv(lib, st, p, f),
        whites(st) <= b,
        p.len() > 0 && known(lib, id) ==> ref_edge(lib, p.last(), id),
    ensures
        search_inv(lib, dfs(lib, id, st, errs, b).0, p, f2),
        f.is_prefix_of(f2),
        errs.is_prefix_of(dfs(lib, id, st, errs, b).1),
        dfs(lib, id, st, errs, b).1.len() > errs.len() ==> has_ref_cycle(lib),
        dfs(lib, id, st, errs, b).1.len() == errs.len() && finish_ordered(lib, f)
            ==> finish_ordered(lib, f2),
        dfs(lib, id, st, errs, b).1.len() == errs.len() && known(lib, id) ==> f2.contains(id),
        whites(dfs(lib, id, st, errs, b).0) <= whites(st),
    decreases b, 0nat, 0nat,
{
    lemma_color_known(lib, st, id);
    match color_in(st, id) {
        None => f,
        Some(Color::Black) => f,
        Some(Color::Gray) => {
            // `id` is on the current path: the path from it back to the top,
            // plus the edge into `id`, is a cycle.
            let j = choose|j: int| 0 <= j < p.len() && p[j] == id;
            let cyc = p.subrange(j, p.len() as int);
            assert(cyc.last() == p.last());
            assert forall|i: int| 0 <= i < cyc.len() - 1 implies ref_edge(
                lib,
                #[trigger] cyc[i],
                cyc[i + 1],
            ) by {
                assert(cyc[i] == p[j + i]);
                assert(cyc[i + 1] == p[j + i + 1]);
            }
            assert(is_ref_cycle(lib, cyc));
            f
        },
        Some(Color::White) => {
            crate::validate::lemma_set_in_whites(st, id, Color::Gray);
            let st1 = set_in(st, id, Color::Gray);
            let p1 = p.push(id);
            assert forall|v: SampleId| known(lib, v) implies (color_in(st1, v) == Some(Color::Gray)
                <==> p1.contains(v)) by {
                lemma_set_in(st, id, Color::Gray, v);
                if p.contains(v) {
                    let k = choose|k: int| 0 <= k < p.len() && p[k] == v;
                    assert(p1[k] == v);
                }
                if p1.contains(v) && v != id {
                    let k = choose|k: int| 0 <= k < p1.len() && p1[k] == v;
                    assert(p[k] == v);
                }
                assert(p1[p.len() as int] == id);
            }
            assert forall|v: SampleId| known(lib, v) implies (color_in(st1, v) == Some(Color::Black)
                <==> f.contains(v)) by {
                lemma_set_in(st, id, Color::Gray, v);
            }
            assert forall|v: SampleId| p1.contains(v) implies known(lib, v) by {
                if v != id {
                    let k = choose|k: int| 0 <= k < p1.len() && p1[k] == v;
                    assert(p[k] == v);
                }
            }
            assert(path_edges(lib, p1)) by {
                assert forall|i: int| 0 <= i < p1.len() - 1 implies ref_edge(
                    lib,
                    #[trigger] p1[i],
                    p1[i + 1],
                ) by {
                    if i < p.len() - 1 {
                        assert(p1[i] == p[i] && p1[i + 1] == p[i + 1]);
                    } else {
                        assert(p1[i] == p.last());
                    }
                }
            }
            lemma_set_in(st, id, Color::Gray, id);
            assert(same_ids(lib, st1));
            assert(search_inv(lib, st1, p1, f));
            let nodes = sample_nodes(lib, id);
            assert(nodes.skip(0) =~= nodes);
            let bb = (b - 1) as nat;
            let f1 = lemma_dfs_nodes(lib, id, 0, nodes, st1, errs, bb, p1, f);
            let r = dfs_nodes(lib, nodes, st1, errs, bb);
            let st2 = r.0;
            let st3 = set_in(st2, id, Color::Black);
            assert(dfs(lib, id, st, errs, b) == (st3, r.1));
            crate::validate::lemma_set_in_whites(st2, id, Color::Black);
            // `id` is gray in st2, hence not yet finished.
            assert(p1.contains(id)) by {
                assert(p1[p.len() as int] == id);
            }
            assert(!f1.contains(id));
            let f2 = f1.push(id);
            assert forall|v: SampleId| known(lib, v) implies (color_in(st3, v) == Some(Color::Gray)
                <==> p.contains(v)) by {
                lemma_set_in(st2, id, Color::Black, v);
                if p.contains(v) {
                    let k = choose|k: int| 0 <= k < p.len() && p[k] == v;
                    assert(p1[k] == v);
                }
                if p1.contains(v) && v != id {
                    let k = choose|k: int| 0 <= k < p1.len() && p1[k] == v;
                    assert(p[k] == v);
                }
                if v == id {
                    // `id` was white, so it is not on the path.
                    assert(!p.contains(id));
                }
            }
            assert forall|v: SampleId| known(lib, v) implies (color_in(st3, v) == Some(Color::Black)
                <==> f2.contains(v)) by {
                lemma_set_in(st2, id, Color::Black, v);
                if f1.contains(v) {
                    let k = choose|k: int| 0 <= k < f1.len() && f1[k] == v;
                    assert(f2[k] == v);
                }
                if f2.contains(v) && v != id {
                    let k = choose|k: int| 0 <= k < f2.len() && f2[k] == v;
                    assert(f1[k] == v);
                }
                assert(f2[f1.len() as int] == id);
            }
            assert forall|v: SampleId| f2.contains(v) implies known(lib, v) by {
                if v != id {
                    let k = choose|k: int| 0 <= k < f2.len() && f2[k] == v;
                    assert(f1[k] == v);
                }
            }
            assert forall|k: int| 0 <= k < st3.len() implies (#[trigger] st3[k]).0
                == lib.samples@[k].id by {
                lemma_set_in(st2, id, Color::Black, id);
                assert(st3[k].0 == st2[k].0);
            }
            assert(f2.no_duplicates()) by {
                assert forall|i: int, j: int|
                    0 <= i < f2.len() && 0 <= j < f2.len() && i != j implies f2[i] != f2[j] by {
                    if i == f1.len() {
                        assert(f1.contains(f2[j]));
                    } else if j == f1.len() {
                        assert(f1.contains(f2[i]));
                    }
                }
            }
            assert(search_inv(lib, st3, p, f2));
            assert(f.is_prefix_of(f2)) by {
                assert(f2.subrange(0, f.len() as int) =~= f1.subrange(0, f.len() as int));
            }
            if r.1.len() == errs.len() && finish_ordered(lib, f) {
                assert forall|v: SampleId| ref_edge(lib, id, v) implies f1.contains(v) by {
                    let i = choose|i: int|
                        0 <= i < sample_nodes(lib, id).len() && refers_to(
                            #[trigger] sample_nodes(lib, id)[i],
                            v,
                        );
                    assert(nodes.skip(0)[i] == nodes[i]);
                }
                lemma_push_keeps_order(lib, f1, id);
            }
            assert(f2.contains(id)) by {
                assert(f2[f1.len() as int] == id);
            }
            f2
        },
    }
}

proof fn lemma_dfs_nodes(
    lib: SampleLibrary,
    u: SampleId,
    k: int,
    nodes: Seq<Node>,
    st: Seq<(SampleId, Color)>,
    errs: Seq<SchemaError>,
    b: nat,
    p: Seq<SampleId>,
    f: Seq<SampleId>,
) -> (f2: Seq<SampleId>)
    requires
        search_inv(lib, st, p, f),
        whites(st) <= b,
        p.len() > 0,
        p.last() == u,
        0 <= k <= sample_nodes(lib, u).len(),
        nodes == sample_nodes(lib, u).skip(k),
    ensures
        search_inv(lib, dfs_nodes(lib, nodes, st, errs, b).0, p, f2),
        f.is_prefix_of(f2),
        errs.is_prefix_of(dfs_nodes(lib, nodes, st, errs, b).1),
        dfs_nodes(lib, nodes, st, errs, b).1.len() > errs.len() ==> has_ref_cycle(lib),
        dfs_nodes(lib, nodes, st, errs, b).1.len() == errs.len() && finish_ordered(lib, f)
            ==> finish_ordered(lib, f2),
        dfs_nodes(lib, nodes, st, errs, b).1.len() == errs.len() ==> forall|v: SampleId|
            known(lib, v) && (exists|j: int|
                0 <= j < nodes.len() && refers_to(#[trigger] nodes[j], v)) ==> f2.contains(v),
        whites(dfs_nodes(lib, nodes, st, errs, b).0) <= whites(st),
    decreases b, 1nat, nodes.len(),
{
    if nodes.len() == 0 {
        f
    } else {
        let all = sample_nodes(lib, u);
        assert(nodes.drop_first() =~= all.skip(k + 1));
        assert(nodes[0] == all[k]);
        match nodes[0].kind {
            NodeKind::Sample(r) => {
                if known(lib, r.sample) {
                    assert(refers_to(all[k], r.sample));
                    assert(ref_edge(lib, u, r.sample));
                }
                let a = dfs(lib, r.sample, st, errs, b);
                let fa = lemma_dfs(lib, r.sample, st, errs, b, p, f);
                let fb = lemma_dfs_nodes(lib, u, k + 1, nodes.drop_first(), a.0, a.1, b, p, fa);
                let out = dfs_nodes(lib, nodes, st, errs, b);
                assert(out == dfs_nodes(lib, nodes.drop_first(), a.0, a.1, b));
                assert(f.is_prefix_of(fb)) by {
                    assert(fb.subrange(0, f.len() as int) =~= fa.subrange(0, f.len() as int));
                }
                assert(errs.is_prefix_of(out.1)) by {
                    assert(out.1.subrange(0, errs.len() as int) =~= a.1.subrange(
                        0,
                        errs.len() as int,
                    ));
                }
                if out.1.len() == errs.len() {
                    assert(a.1.len() == errs.len());
                    assert forall|v: SampleId|
                        known(lib, v) && (exists|j: int|
                            0 <= j < nodes.len() && refers_to(
                                #[trigger] nodes[j],
                                v,
                            )) implies fb.contains(v) by {
                        let j = choose|j: int| 0 <= j < nodes.len() && refers_to(#[trigger] nodes[j], v);
                        if j == 0 {
                            assert(fa.contains(v));
                            let i = choose|i: int| 0 <= i < fa.len() && fa[i] == v;
                            assert(fb[i] == v);
                        } else {
                            assert(nodes.drop_first()[j - 1] == nodes[j]);
                        }
                    }
                }
                fb
            },
            _ => {
                let fb = lemma_dfs_nodes(lib, u, k + 1, nodes.drop_first(), st, errs, b, p, f);
                let out = dfs_nodes(lib, nodes, st, errs, b);
                if out.1.len() == errs.len() {
                    assert forall|v: SampleId|
                        known(lib, v) && (exists|j: int|
                            0 <= j < nodes.len() && refers_to(
                                #[trigger] nodes[j],
                                v,
                            )) implies fb.contains(v) by {
                        let j = choose|j: int| 0 <= j < nodes.len() && refers_to(#[trigger] nodes[j], v);
                        assert(j != 0);
                        assert(nodes.drop_first()[j - 1] == nodes[j]);
                    }
                }
                fb
            },
        }
    }
}

proof fn lemma_dfs_all(
    lib: SampleLibrary,
    k: int,
    st: Seq<(SampleId, Color)>,
    errs: Seq<SchemaError>,
    f: Seq<SampleId>,
) -> (f2: Seq<SampleId>)
    requires
        search_inv(lib, st, seq![], f),
        0 <= k <= lib.samples@.len(),
        forall|j: int| 0 <= j < k ==> f.contains(#[trigger] lib.samples@[j].id),
    ensures
        errs.is_prefix_of(dfs_all(lib, lib.samples@.skip(k), st, errs)),
        dfs_all(lib, lib.samples@.skip(k), st, errs).len() > errs.len() ==> has_ref_cycle(lib),
        dfs_all(lib, lib.samples@.skip(k), st, errs).len() == errs.len() && finish_ordered(lib, f)
            ==> {
            &&& finish_ordered(lib, f2)
            &&& f2.no_duplicates()
            &&& forall|j: int| 0 <= j < lib.samples@.len() ==> f2.contains(#[trigger] lib.samples@[j].id)
        },
    decreases lib.samples@.len() - k,
{
    let ss = lib.samples@.skip(k);
    if k == lib.samples@.len() {
        assert(ss.len() == 0);
        f
    } else {
        assert(ss.drop_first() =~= lib.samples@.skip(k + 1));
        let id = ss[0].id;
        assert(id == lib.samples@[k].id);
        lemma_find_sample(lib.samples@, id);
        assert(known(lib, id));
        let a = dfs(lib, id, st, errs, whites(st));
        let fa = lemma_dfs(lib, id, st, errs, whites(st), seq![], f);
        // When a report happened, the remaining obligations are vacuous.
        if a.1.len() > errs.len() {
            let fb = lemma_dfs_all_reported(lib, k + 1, a.0, a.1, fa, errs);
            fb
        } else {
            assert forall|j: int| 0 <= j < k + 1 implies fa.contains(
                #[trigger] lib.samples@[j].id,
            ) by {
                if j < k {
                    let i = choose|i: int| 0 <= i < f.len() && f[i] == lib.samples@[j].id;
                    assert(fa[i] == f[i]);
                }
            }
            let fb = lemma_dfs_all(lib, k + 1, a.0, a.1, fa);
            assert(errs.is_prefix_of(dfs_all(lib, ss, st, errs))) by {
                let out = dfs_all(lib, ss, st, errs);
                assert(out.subrange(0, errs.len() as int) =~= a.1.subrange(0, errs.len() as int));
            }
            fb
        }
    }
}

/// Once a report is made, the rest of the search keeps it.
proof fn lemma_dfs_all_reported(
    lib: SampleLibrary,
    k: int,
    st: Seq<(SampleId, Color)>,
    errs: Seq<SchemaError>,
    f: Seq<SampleId>,
    base: Seq<SchemaError>,
) -> (f2: Seq<SampleId>)
    requires
        search_inv(lib, st, seq![], f),
        0 <= k <= lib.samples@.len(),
        base.is_prefix_of(errs),
        errs.len() > base.len(),
        has_ref_cycle(lib),
    ensures
        errs.is_prefix_of(dfs_all(lib, lib.samples@.skip(k), st, errs)),
        base.is_prefix_of(dfs_all(lib, lib.samples@.skip(k), st, errs)),
        dfs_all(lib, lib.samples@.skip(k), st, errs).len() > base.len(),
    decreases lib.samples@.len() - k,
{
    let ss = lib.samples@.skip(k);
    if k == lib.samples@.len() {
        assert(ss.len() == 0);
        f
    } else {
        assert(ss.drop_first() =~= lib.samples@.skip(k + 1));
        let id = ss[0].id;
        let a = dfs(lib, id, st, errs, whites(st));
        let fa = lemma_dfs(lib, id, st, errs, whites(st), seq![], f);
        assert(base.is_prefix_of(a.1)) by {
            assert(a.1.subrange(0, base.len() as int) =~= errs.subrange(0, base.len() as int));
        }
        let fb = lemma_dfs_all_reported(lib, k + 1, a.0, a.1, fa, base);
        let out = dfs_all(lib, ss, st, errs);
        assert(errs.is_prefix_of(out)) by {
            assert(out.subrange(0, errs.len() as int) =~= a.1.subrange(0, errs.len() as int));
        }
        fb
    }
}


// ---------------------------------------------------------------------------
// The typed port matrix, and what validation reports of it.
// ---------------------------------------------------------------------------

/// The wire starts at an audio source of the graph: an output of one of
/// its nodes, or one of its declared inlets.
pub open spec fn from_audio(g: Graph, c: Connection) -> bool {
    ||| c.from matches ConnectionSource::NodeOutput { node, .. } && has_node_id(g.nodes@, node)
    ||| c.from matches ConnectionSource::Inlet { port } && has_port_id(g.inlets@, port.0@)
}

/// The wire starts at a keyed output of one of the graph's note sequencers.
pub open spec fn from_note_sequencer(g: Graph, c: Connection) -> bool {
    c.from matches ConnectionSource::SeqOut { node, .. } && find_node_kind(g.nodes@, node) matches Some(
        NodeKind::NoteSequencer(_),
    )
}

/// The wire starts at a keyed lane of one of the graph's control sequencers.
pub open spec fn from_control_sequencer(g: Graph, c: Connection) -> bool {
    c.from matches ConnectionSource::SeqOut { node, .. } && find_node_kind(g.nodes@, node) matches Some(
        NodeKind::ControlSequencer(_),
    )
}

/// The wire ends at one of the graph's own nodes or outlets.
pub open spec fn to_resolved(g: Graph, c: Connection) -> bool {
    match c.to {
        ConnectionSink::NodeInput { node, .. } => has_node_id(g.nodes@, node),
        ConnectionSink::NodeParam { node, .. } => has_node_id(g.nodes@, node),
        ConnectionSink::Outlet { port } => has_port_id(g.outlets@, port.0@),
        ConnectionSink::Trigger { node } => has_node_id(g.nodes@, node),
    }
}

/// The typed port matrix for wires whose ends both lie in the graph: audio
/// goes into audio inputs, parameters and outlets but not into trigger
/// inlets; a note sequencer's triggers go only into trigger inlets; a
/// control sequencer's curves go only into parameters. Wires with an end
/// outside the graph are left to the unknown-reference checks.
pub proof fn lemma_typed_port_matrix(g: Graph, c: Connection)
    ensures
        from_audio(g, c) && to_resolved(g, c) ==> (spec_can_wire(g, c) <==> !(c.to is Trigger)),
        from_note_sequencer(g, c) && to_resolved(g, c) ==> (spec_can_wire(g, c) <==> c.to is Trigger),
        from_control_sequencer(g, c) && to_resolved(g, c) ==> (spec_can_wire(g, c)
            <==> c.to is NodeParam),
        !to_resolved(g, c) ==> spec_can_wire(g, c),
{
}

/// What one wire reports is among the errors of the wires `cs`.
proof fn lemma_connection_in(sid: SampleId, g: Graph, cs: Seq<Connection>, j: int, e: SchemaError)
    requires
        0 <= j < cs.len(),
        connection_errors(sid, g, cs[j]).contains(e),
    ensures
        connections_errors(sid, g, cs).contains(e),
    decreases cs.len(),
{
    let pre = connections_errors(sid, g, cs.drop_last());
    let last = connection_errors(sid, g, cs.last());
    if j == cs.len() - 1 {
        let k = choose|k: int| 0 <= k < last.len() && last[k] == e;
        assert((pre + last)[pre.len() + k] == e);
    } else {
        assert(cs.drop_last()[j] == cs[j]);
        lemma_connection_in(sid, g, cs.drop_last(), j, e);
        let k = choose|k: int| 0 <= k < pre.len() && pre[k] == e;
        assert((pre + last)[k] == e);
    }
}

/// What one node reports is among the errors of the nodes `ns`.
proof fn lemma_node_in(sid: SampleId, lib: SampleLibrary, ns: Seq<Node>, j: int, e: SchemaError)
    requires
        0 <= j < ns.len(),
        node_errors(sid, lib, ns[j]).contains(e),
    ensures
        nodes_errors(sid, lib, ns).contains(e),
    decreases ns.len(),
{
    let pre = nodes_errors(sid, lib, ns.drop_last());
    let last = node_errors(sid, lib, ns.last());
    if j == ns.len() - 1 {
        let k = choose|k: int| 0 <= k < last.len() && last[k] == e;
        assert((pre + last)[pre.len() + k] == e);
    } else {
        assert(ns.drop_last()[j] == ns[j]);
        lemma_node_in(sid, lib, ns.drop_last(), j, e);
        let k = choose|k: int| 0 <= k < pre.len() && pre[k] == e;
        assert((pre + last)[k] == e);
    }
}

/// Whatever a sample's graph reports is among the errors of the samples.
proof fn lemma_samples_report(lib: SampleLibrary, ss: Seq<Sample>, i: int, e: SchemaError)
    requires
        0 <= i < ss.len(),
        graph_errors(lib, ss[i]).contains(e),
    ensures
        samples_errors(lib, ss).contains(e),
    decreases ss.len(),
{
    let pre = samples_errors(lib, ss.drop_last());
    let last = graph_errors(lib, ss.last());
    if i == ss.len() - 1 {
        let k = choose|k: int| 0 <= k < last.len() && last[k] == e;
        assert((pre + last)[pre.len() + k] == e);
    } else {
        assert(ss.drop_last()[i] == ss[i]);
        lemma_samples_report(lib, ss.drop_last(), i, e);
        let k = choose|k: int| 0 <= k < pre.len() && pre[k] == e;
        assert((pre + last)[k] == e);
    }
}

/// Whatever a sample's graph reports, validation reports.
proof fn lemma_graph_error_reported(lib: SampleLibrary, i: int, e: SchemaError)
    requires
        0 <= i < lib.samples@.len(),
        graph_errors(lib, lib.samples@[i]).contains(e),
    ensures
        spec_validate(lib).contains(e),
{
    lemma_samples_report(lib, lib.samples@, i, e);
    let se = samples_errors(lib, lib.samples@);
    let pre = root_errors(lib) + se;
    let m = choose|m: int| 0 <= m < se.len() && se[m] == e;
    assert(pre[root_errors(lib).len() + m] == e);
    lemma_cycle_search_exact(lib, pre);
    let out = spec_validate(lib);
    assert(out.subrange(0, pre.len() as int) == pre);
    assert(out[root_errors(lib).len() + m] == out.subrange(0, pre.len() as int)[root_errors(
        lib,
    ).len() + m]);
}

/// A wire's errors are reported by validation.
proof fn lemma_wire_error_reported(lib: SampleLibrary, i: int, j: int, e: SchemaError)
    requires
        0 <= i < lib.samples@.len(),
        0 <= j < lib.samples@[i].graph.connections@.len(),
        connection_errors(lib.samples@[i].id, lib.samples@[i].graph, lib.samples@[i].graph.connections@[j]).contains(e),
    ensures
        spec_validate(lib).contains(e),
{
    let s = lib.samples@[i];
    lemma_connection_in(s.id, s.graph, s.graph.connections@, j, e);
    let ce = connections_errors(s.id, s.graph, s.graph.connections@);
    let k = choose|k: int| 0 <= k < ce.len() && ce[k] == e;
    assert(graph_errors(lib, s)[k] == e);
    lemma_graph_error_reported(lib, i, e);
}

/// Validation reports an incompatible wire for every sample holding a wire
/// that fails the port matrix.
pub proof fn lemma_incompatible_wire_reported(lib: SampleLibrary, i: int, j: int)
    requires
        0 <= i < lib.samples@.len(),
        0 <= j < lib.samples@[i].graph.connections@.len(),
        !spec_can_wire(lib.samples@[i].graph, lib.samples@[i].graph.connections@[j]),
    ensures
        spec_validate(lib).contains(SchemaError::IncompatibleWire { sample: lib.samples@[i].id }),
{
    let s = lib.samples@[i];
    let e = SchemaError::IncompatibleWire { sample: s.id };
    let ce = connection_errors(s.id, s.graph, s.graph.connections@[j]);
    assert(ce[ce.len() - 1] == e);
    lemma_wire_error_reported(lib, i, j, e);
}

/// Every wire end outside its sample's graph is reported: an unknown node
/// (on any kind of endpoint) as `UnknownNode`, an undeclared inlet as
/// `UnknownInlet`, an undeclared outlet as `UnknownOutlet`.
pub proof fn lemma_dangling_ends_reported(lib: SampleLibrary, i: int, j: int)
    requires
        0 <= i < lib.samples@.len(),
        0 <= j < lib.samples@[i].graph.connections@.len(),
    ensures
        ({
            let s = lib.samples@[i];
            let g = s.graph;
            let c = g.connections@[j];
            let v = spec_validate(lib);
            &&& c.from matches ConnectionSource::NodeOutput { node, .. } ==> (!has_node_id(g.nodes@, node)
                ==> v.contains((SchemaError::UnknownNode { sample: s.id, node })))
            &&& c.from matches ConnectionSource::SeqOut { node, .. } ==> (!has_node_id(g.nodes@, node)
                ==> v.contains((SchemaError::UnknownNode { sample: s.id, node })))
            &&& c.from matches ConnectionSource::Inlet { port } ==> (!has_port_id(g.inlets@, port.0@)
                ==> v.contains((SchemaError::UnknownInlet { sample: s.id, port })))
            &&& c.to matches ConnectionSink::NodeInput { node, .. } ==> (!has_node_id(g.nodes@, node)
                ==> v.contains((SchemaError::UnknownNode { sample: s.id, node })))
            &&& c.to matches ConnectionSink::NodeParam { node, .. } ==> (!has_node_id(g.nodes@, node)
                ==> v.contains((SchemaError::UnknownNode { sample: s.id, node })))
            &&& c.to matches ConnectionSink::Trigger { node } ==> (!has_node_id(g.nodes@, node)
                ==> v.contains((SchemaError::UnknownNode { sample: s.id, node })))
            &&& c.to matches ConnectionSink::Outlet { port } ==> (!has_port_id(g.outlets@, port.0@)
                ==> v.contains((SchemaError::UnknownOutlet { sample: s.id, port })))
        }),
{
    let s = lib.samples@[i];
    let g = s.graph;
    let c = g.connections@[j];
    let src = source_errors(s.id, g, c.from);
    let snk = sink_errors(s.id, g, c.to);
    let ce = connection_errors(s.id, g, c);
    if src.len() > 0 {
        assert(ce[0] == src[0]);
        lemma_wire_error_reported(lib, i, j, src[0]);
    }
    if snk.len() > 0 {
        assert(ce[src.len() as int] == snk[0]);
        lemma_wire_error_reported(lib, i, j, snk[0]);
    }
}

/// Every custom oscillator without harmonics is reported as
/// `MissingPeriodicWave`, and every reference to a sample the library
/// lacks as `UnknownSampleRef`.
pub proof fn lemma_node_defects_reported(lib: SampleLibrary, i: int, j: int)
    requires
        0 <= i < lib.samples@.len(),
        0 <= j < lib.samples@[i].graph.nodes@.len(),
    ensures
        ({
            let s = lib.samples@[i];
            let n = s.graph.nodes@[j];
            let v = spec_validate(lib);
            &&& n.kind matches NodeKind::Oscillator(o) ==> (o.oscillator_type
                == OscillatorType::Custom && o.harmonic_count == 0 ==> v.contains(
                (SchemaError::MissingPeriodicWave { sample: s.id, node: n.id }),
            ))
            &&& n.kind matches NodeKind::Sample(r) ==> (!known(lib, r.sample) ==> v.contains(
                (SchemaError::UnknownSampleRef { sample: s.id, target: r.sample }),
            ))
        }),
{
    let s = lib.samples@[i];
    let n = s.graph.nodes@[j];
    let ne = node_errors(s.id, lib, n);
    if ne.len() > 0 {
        let e = ne[0];
        lemma_node_in(s.id, lib, s.graph.nodes@, j, e);
        let cn = connections_errors(s.id, s.graph, s.graph.connections@);
        let nn = nodes_errors(s.id, lib, s.graph.nodes@);
        let k = choose|k: int| 0 <= k < nn.len() && nn[k] == e;
        assert(graph_errors(lib, s)[cn.len() + k] == e);
        lemma_graph_error_reported(lib, i, e);
    }
}

/// An unknown root is the first thing reported.
pub proof fn lemma_unknown_root_first(lib: SampleLibrary)
    requires
        lib.root is Some,
        !known(lib, lib.root->0),
    ensures
        spec_validate(lib).len() > 0,
        spec_validate(lib)[0] == SchemaError::UnknownRoot(lib.root->0),
{
    let pre = root_errors(lib) + samples_errors(lib, lib.samples@);
    lemma_cycle_search_exact(lib, pre);
    let out = spec_validate(lib);
    assert(pre[0] == SchemaError::UnknownRoot(lib.root->0));
    assert(out.subrange(0, pre.len() as int)[0] == out[0]);
}

/// A wire from a sequencer's keyed output (trigger or control) into an
/// audio input of one of the sample's nodes is reported as incompatible:
/// audio inputs take audio only.
pub proof fn lemma_sequencer_into_audio_input_reported(lib: SampleLibrary, i: int, j: int)
    requires
        0 <= i < lib.samples@.len(),
        0 <= j < lib.samples@[i].graph.connections@.len(),
        ({
            let g = lib.samples@[i].graph;
            let c = g.connections@[j];
            &&& from_note_sequencer(g, c) || from_control_sequencer(g, c)
            &&& c.to matches ConnectionSink::NodeInput { node, .. } && has_node_id(g.nodes@, node)
        }),
    ensures
        spec_validate(lib).contains(SchemaError::IncompatibleWire { sample: lib.samples@[i].id }),
{
    let g = lib.samples@[i].graph;
    lemma_typed_port_matrix(g, g.connections@[j]);
    lemma_incompatible_wire_reported(lib, i, j);
}

// ---------------------------------------------------------------------------
// The laws.
// ---------------------------------------------------------------------------

/// The reference-cycle search reports a cycle exactly when the library's
/// samples reference one another in a cycle; it only ever appends to the
/// errors found before it.
pub proof fn lemma_cycle_search_exact(lib: SampleLibrary, errs: Seq<SchemaError>)
    ensures
        errs.is_prefix_of(dfs_all(lib, lib.samples@, initial_state(lib.samples@), errs)),
        dfs_all(lib, lib.samples@, initial_state(lib.samples@), errs).len() > errs.len()
            <==> has_ref_cycle(lib),
{
    let st = initial_state(lib.samples@);
    let f: Seq<SampleId> = seq![];
    let p: Seq<SampleId> = seq![];
    assert(same_ids(lib, st));
    assert forall|v: SampleId| known(lib, v) implies (color_in(st, v) == Some(Color::Gray)
        <==> p.contains(v)) && (color_in(st, v) == Some(Color::Black) <==> f.contains(v)) by {
        lemma_color_known(lib, st, v);
        lemma_first_index(st, v);
    }
    assert(search_inv(lib, st, p, f));
    assert(lib.samples@.skip(0) =~= lib.samples@);
    let f2 = lemma_dfs_all(lib, 0, st, errs, f);
    let out = dfs_all(lib, lib.samples@, st, errs);
    if has_ref_cycle(lib) && out.len() == errs.len() {
        let path = choose|path: Seq<SampleId>| is_ref_cycle(lib, path);
        assert forall|v: SampleId| known(lib, v) implies f2.contains(v) by {
            lemma_find_sample(lib.samples@, v);
            let j = choose|j: int| 0 <= j < lib.samples@.len() && (#[trigger] lib.samples@[j]).id == v;
            assert(f2.contains(lib.samples@[j].id));
        }
        lemma_ordered_acyclic(lib, f2, path);
    }
}

/// A search started from a single sample, on a fresh colour table, reports
/// a cycle only when the library's samples do reference one another in a
/// cycle (it reports on reaching a sample still on its own path), and it
/// only appends to the errors found before it.
pub proof fn lemma_single_search_sound(lib: SampleLibrary, id: SampleId, errs: Seq<SchemaError>)
    ensures
        errs.is_prefix_of(
            dfs(lib, id, initial_state(lib.samples@), errs, whites(initial_state(lib.samples@))).1,
        ),
        dfs(lib, id, initial_state(lib.samples@), errs, whites(initial_state(lib.samples@))).1.len()
            > errs.len() ==> has_ref_cycle(lib),
{
    let st = initial_state(lib.samples@);
    let f: Seq<SampleId> = seq![];
    let p: Seq<SampleId> = seq![];
    assert(same_ids(lib, st));
    assert forall|v: SampleId| known(lib, v) implies (color_in(st, v) == Some(Color::Gray)
        <==> p.contains(v)) && (color_in(st, v) == Some(Color::Black) <==> f.contains(v)) by {
        lemma_color_known(lib, st, v);
        lemma_first_index(st, v);
    }
    assert(search_inv(lib, st, p, f));
    let _ = lemma_dfs(lib, id, st, errs, whites(st), p, f);
}

/// References to samples the library lacks are ignored by the cycle
/// search: from such a reference it changes no colour and reports nothing
/// (graph validation reports them instead).
pub proof fn lemma_unknown_ref_ignored(
    lib: SampleLibrary,
    id: SampleId,
    st: Seq<(SampleId, Color)>,
    errs: Seq<SchemaError>,
    budget: nat,
)
    requires
        same_ids(lib, st),
        !known(lib, id),
    ensures
        dfs(lib, id, st, errs, budget) == (st, errs),
{
    lemma_color_known(lib, st, id);
}


/// `after` is `before` followed only by cycle reports.
pub open spec fn appends_cycles(before: Seq<SchemaError>, after: Seq<SchemaError>) -> bool {
    &&& before.is_prefix_of(after)
    &&& forall|k: int| before.len() <= k < after.len() ==> (#[trigger] after[k]) is SampleCycle
}

proof fn lemma_appends_trans(a: Seq<SchemaError>, b: Seq<SchemaError>, c: Seq<SchemaError>)
    requires
        appends_cycles(a, b),
        appends_cycles(b, c),
    ensures
        appends_cycles(a, c),
{
    assert forall|k: int| 0 <= k < a.len() implies c[k] == a[k] by {
        assert(c[k] == c.subrange(0, b.len() as int)[k]);
        assert(b[k] == b.subrange(0, a.len() as int)[k]);
    }
    assert(c.subrange(0, a.len() as int) =~= a);
    assert forall|k: int| a.len() <= k < c.len() implies (#[trigger] c[k]) is SampleCycle by {
        if k < b.len() {
            assert(c[k] == c.subrange(0, b.len() as int)[k]);
            assert(b[k] is SampleCycle);
        }
    }
}

proof fn lemma_dfs_appends(
    lib: SampleLibrary,
    id: SampleId,
    st: Seq<(SampleId, Color)>,
    errs: Seq<SchemaError>,
    b: nat,
)
    ensures
        appends_cycles(errs, dfs(lib, id, st, errs, b).1),
    decreases b, 0nat, 0nat,
{
    match color_in(st, id) {
        None => {
            assert(errs.subrange(0, errs.len() as int) =~= errs);
        },
        Some(Color::Black) => {
            assert(errs.subrange(0, errs.len() as int) =~= errs);
        },
        Some(Color::Gray) => {
            let out = errs.push(SchemaError::SampleCycle { sample: id });
            assert(out.subrange(0, errs.len() as int) =~= errs);
        },
        Some(Color::White) => {
            if b == 0 {
                assert(errs.subrange(0, errs.len() as int) =~= errs);
            } else {
                lemma_dfs_nodes_appends(
                    lib,
                    sample_nodes(lib, id),
                    set_in(st, id, Color::Gray),
                    errs,
                    (b - 1) as nat,
                );
            }
        },
    }
}

proof fn lemma_dfs_nodes_appends(
    lib: SampleLibrary,
    nodes: Seq<Node>,
    st: Seq<(SampleId, Color)>,
    errs: Seq<SchemaError>,
    b: nat,
)
    ensures
        appends_cycles(errs, dfs_nodes(lib, nodes, st, errs, b).1),
    decreases b, 1nat, nodes.len(),
{
    if nodes.len() == 0 {
        assert(errs.subrange(0, errs.len() as int) =~= errs);
    } else {
        match nodes[0].kind {
            NodeKind::Sample(r) => {
                let a = dfs(lib, r.sample, st, errs, b);
                lemma_dfs_appends(lib, r.sample, st, errs, b);
                lemma_dfs_nodes_appends(lib, nodes.drop_first(), a.0, a.1, b);
                lemma_appends_trans(errs, a.1, dfs_nodes(lib, nodes.drop_first(), a.0, a.1, b).1);
            },
            _ => {
                lemma_dfs_nodes_appends(lib, nodes.drop_first(), st, errs, b);
            },
        }
    }
}

proof fn lemma_dfs_all_appends(
    lib: SampleLibrary,
    ss: Seq<Sample>,
    st: Seq<(SampleId, Color)>,
    errs: Seq<SchemaError>,
)
    ensures
        appends_cycles(errs, dfs_all(lib, ss, st, errs)),
    decreases ss.len(),
{
    if ss.len() == 0 {
        assert(errs.subrange(0, errs.len() as int) =~= errs);
    } else {
        let a = dfs(lib, ss[0].id, st, errs, whites(st));
        lemma_dfs_appends(lib, ss[0].id, st, errs, whites(st));
        lemma_dfs_all_appends(lib, ss.drop_first(), a.0, a.1);
        lemma_appends_trans(errs, a.1, dfs_all(lib, ss.drop_first(), a.0, a.1));
    }
}

proof fn lemma_no_cycle_in_connections(sid: SampleId, g: Graph, cs: Seq<Connection>)
    ensures
        forall|k: int|
            0 <= k < connections_errors(sid, g, cs).len() ==> !(#[trigger] connections_errors(
                sid,
                g,
                cs,
            )[k] is SampleCycle),
    decreases cs.len(),
{
    if cs.len() > 0 {
        lemma_no_cycle_in_connections(sid, g, cs.drop_last());
        let pre = connections_errors(sid, g, cs.drop_last());
        let last = connection_errors(sid, g, cs.last());
        assert forall|k: int| 0 <= k < (pre + last).len() implies !((pre + last)[k] is SampleCycle) by {
            if k < pre.len() {
                assert((pre + last)[k] == pre[k]);
            } else {
                assert((pre + last)[k] == last[k - pre.len()]);
            }
        }
    }
}

proof fn lemma_no_cycle_in_nodes(sid: SampleId, lib: SampleLibrary, ns: Seq<Node>)
    ensures
        forall|k: int|
            0 <= k < nodes_errors(sid, lib, ns).len() ==> !(#[trigger] nodes_errors(sid, lib, ns)[k] is SampleCycle),
    decreases ns.len(),
{
    if ns.len() > 0 {
        lemma_no_cycle_in_nodes(sid, lib, ns.drop_last());
        let pre = nodes_errors(sid, lib, ns.drop_last());
        let last = node_errors(sid, lib, ns.last());
        assert forall|k: int| 0 <= k < (pre + last).len() implies !((pre + last)[k] is SampleCycle) by {
            if k < pre.len() {
                assert((pre + last)[k] == pre[k]);
            } else {
                assert((pre + last)[k] == last[k - pre.len()]);
            }
        }
    }
}

proof fn lemma_no_cycle_in_samples(lib: SampleLibrary, ss: Seq<Sample>)
    ensures
        forall|k: int|
            0 <= k < samples_errors(lib, ss).len() ==> !(#[trigger] samples_errors(lib, ss)[k] is SampleCycle),
    decreases ss.len(),
{
    if ss.len() > 0 {
        lemma_no_cycle_in_samples(lib, ss.drop_last());
        let s = ss.last();
        lemma_no_cycle_in_connections(s.id, s.graph, s.graph.connections@);
        lemma_no_cycle_in_nodes(s.id, lib, s.graph.nodes@);
        let pre = samples_errors(lib, ss.drop_last());
        let cn = connections_errors(s.id, s.graph, s.graph.connections@);
        let nn = nodes_errors(s.id, lib, s.graph.nodes@);
        let last = graph_errors(lib, s);
        assert forall|k: int| 0 <= k < (pre + last).len() implies !((pre + last)[k] is SampleCycle) by {
            if k < pre.len() {
                assert((pre + last)[k] == pre[k]);
            } else if k < pre.len() + cn.len() {
                assert((pre + last)[k] == cn[k - pre.len()]);
            } else {
                assert((pre + last)[k] == nn[k - pre.len() - cn.len()]);
            }
        }
    }
}

/// Validation reports a sample-reference cycle exactly when the library's
/// samples reference one another in a cycle, and such reports come last:
/// everything after the first cycle report is a cycle report too.
pub proof fn lemma_cycle_reported_iff_cyclic(lib: SampleLibrary)
    ensures
        (exists|k: int| 0 <= k < spec_validate(lib).len() && #[trigger] spec_validate(lib)[k] is SampleCycle)
            <==> has_ref_cycle(lib),
        forall|k: int, m: int|
            #![trigger spec_validate(lib)[k], spec_validate(lib)[m]]
            0 <= k <= m < spec_validate(lib).len() && spec_validate(lib)[k] is SampleCycle
                ==> spec_validate(lib)[m] is SampleCycle,
{
    let pre = root_errors(lib) + samples_errors(lib, lib.samples@);
    let out = spec_validate(lib);
    lemma_cycle_search_exact(lib, pre);
    lemma_dfs_all_appends(lib, lib.samples@, initial_state(lib.samples@), pre);
    lemma_no_cycle_in_samples(lib, lib.samples@);
    let r = root_errors(lib);
    let se = samples_errors(lib, lib.samples@);
    assert forall|k: int| 0 <= k < pre.len() implies !(out[k] is SampleCycle) by {
        assert(out[k] == out.subrange(0, pre.len() as int)[k]);
        if k < r.len() {
            assert(pre[k] == r[k]);
        } else {
            assert(pre[k] == se[k - r.len()]);
        }
    }
    if has_ref_cycle(lib) {
        assert(out[pre.len() as int] is SampleCycle);
    }
}

/// A library validates with no defect exactly when it is structurally
/// sound: its root is one of its samples, every wire resolves and joins
/// matching signal kinds, no custom oscillator lacks harmonics, every
/// embedded sample exists, and no chain of sample references is circular.
pub proof fn lemma_validate_empty_iff_valid(lib: SampleLibrary)
    ensures
        spec_validate(lib).len() == 0 <==> library_is_valid(lib),
{
    let pre = root_errors(lib) + samples_errors(lib, lib.samples@);
    lemma_cycle_search_exact(lib, pre);
    lemma_samples_errors(lib, lib.samples@);
    lemma_find_sample(lib.samples@, lib.root->0);
}

} // verus!
