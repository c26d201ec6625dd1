//! Structural validation of a [`SampleLibrary`]. This catches the wiring
//! mistakes the type system can't (dangling references, sample-ref cycles, a
//! custom oscillator with no waveform) before the player tries to build a real
//! audio graph from the document.

use vstd::prelude::*;

use crate::enums::OscillatorType;
use crate::schema::{
    find_sample, has_node_id, has_port_id, spec_can_wire, Connection, ConnectionSink,
    ConnectionSource, Graph, Node, NodeId, NodeKind, PortId, Sample, SampleId, SampleLibrary,
};

verus! {

/// A structural defect found by [`SampleLibrary::validate`].
#[derive(Debug, Clone, PartialEq, Eq)]
pub enum SchemaError {
    /// A wire of sample `sample` references a node the graph lacks.
    UnknownNode { sample: SampleId, node: NodeId },
    /// A wire of sample `sample` starts at an inlet the graph does not declare.
    UnknownInlet { sample: SampleId, port: PortId },
    /// A wire of sample `sample` ends at an outlet the graph does not declare.
    UnknownOutlet { sample: SampleId, port: PortId },
    /// A node of sample `sample` references a sample the library lacks.
    UnknownSampleRef { sample: SampleId, target: SampleId },
    /// Sample references form a cycle through `sample`.
    SampleCycle { sample: SampleId },
    /// A custom oscillator has no periodic wave.
    MissingPeriodicWave { sample: SampleId, node: NodeId },
    /// The library's root is not one of its samples.
    UnknownRoot(SampleId),
    /// A wire of sample `sample` joins ports whose signal kinds don't match.
    IncompatibleWire { sample: SampleId },
}

/// The traversal mark of a sample during cycle detection.
#[derive(Debug, Clone, Copy, PartialEq, Eq, Structural)]
pub enum Color {
    /// Not visited yet.
    White,
    /// On the current traversal path.
    Gray,
    /// Fully explored.
    Black,
}

// ---------------------------------------------------------------------------
// What validation reports, per wire and per node.
// ---------------------------------------------------------------------------

/// The error for an unknown root, if any.
pub open spec fn root_errors(lib: SampleLibrary) -> Seq<SchemaError> {
    match lib.root {
        Some(r) => if find_sample(lib.samples@, r) is None {
            seq![SchemaError::UnknownRoot(r)]
        } else {
            seq![]
        },
        None => seq![],
    }
}

/// The error for a wire's unresolved source, if any.
pub open spec fn source_errors(sid: SampleId, g: Graph, from: ConnectionSource) -> Seq<SchemaError> {
    match from {
        ConnectionSource::NodeOutput { node, .. } => if !has_node_id(g.nodes@, node) {
            seq![SchemaError::UnknownNode { sample: sid, node }]
        } else {
            seq![]
        },
        ConnectionSource::Inlet { port } => if !has_port_id(g.inlets@, port.0@) {
            seq![SchemaError::UnknownInlet { sample: sid, port }]
        } else {
            seq![]
        },
        ConnectionSource::SeqOut { node, .. } => if !has_node_id(g.nodes@, node) {
            seq![SchemaError::UnknownNode { sample: sid, node }]
        } else {
            seq![]
        },
    }
}

/// The error for a wire's unresolved sink, if any.
pub open spec fn sink_errors(sid: SampleId, g: Graph, to: ConnectionSink) -> Seq<SchemaError> {
    match to {
        ConnectionSink::NodeInput { node, .. } => if !has_node_id(g.nodes@, node) {
            seq![SchemaError::UnknownNode { sample: sid, node }]
        } else {
            seq![]
        },
        ConnectionSink::NodeParam { node, .. } => if !has_node_id(g.nodes@, node) {
            seq![SchemaError::UnknownNode { sample: sid, node }]
        } else {
            seq![]
        },
        ConnectionSink::Outlet { port } => if !has_port_id(g.outlets@, port.0@) {
            seq![SchemaError::UnknownOutlet { sample: sid, port }]
        } else {
            seq![]
        },
        ConnectionSink::Trigger { node } => if !has_node_id(g.nodes@, node) {
            seq![SchemaError::UnknownNode { sample: sid, node }]
        } else {
            seq![]
        },
    }
}

/// Every error of one wire: its source, its sink, then its signal kinds.
pub open spec fn connection_errors(sid: SampleId, g: Graph, c: Connection) -> Seq<SchemaError> {
    source_errors(sid, g, c.from) + sink_errors(sid, g, c.to) + if spec_can_wire(g, c) {
        seq![]
    } else {
        seq![SchemaError::IncompatibleWire { sample: sid }]
    }
}

/// The errors of the wires `cs`, in order.
pub open spec fn connections_errors(sid: SampleId, g: Graph, cs: Seq<Connection>) -> Seq<
    SchemaError,
>
    decreases cs.len(),
{
    if cs.len() == 0 {
        seq![]
    } else {
        connections_errors(sid, g, cs.drop_last()) + connection_errors(sid, g, cs.last())
    }
}

/// The error of one node: a custom oscillator without harmonics, or a
/// reference to a sample the library lacks.
pub open spec fn node_errors(sid: SampleId, lib: SampleLibrary, n: Node) -> Seq<SchemaError> {
    match n.kind {
        NodeKind::Oscillator(o) => if o.oscillator_type == OscillatorType::Custom
            && o.harmonic_count == 0 {
            seq![SchemaError::MissingPeriodicWave { sample: sid, node: n.id }]
        } else {
            seq![]
        },
        NodeKind::Sample(r) => if find_sample(lib.samples@, r.sample) is None {
            seq![SchemaError::UnknownSampleRef { sample: sid, target: r.sample }]
        } else {
            seq![]
        },
        _ => seq![],
    }
}

/// The errors of the nodes `ns`, in order.
pub open spec fn nodes_errors(sid: SampleId, lib: SampleLibrary, ns: Seq<Node>) -> Seq<
    SchemaError,
>
    decreases ns.len(),
{
    if ns.len() == 0 {
        seq![]
    } else {
        nodes_errors(sid, lib, ns.drop_last()) + node_errors(sid, lib, ns.last())
    }
}

/// The errors of one sample's graph: its wires first, then its nodes.
pub open spec fn graph_errors(lib: SampleLibrary, s: Sample) -> Seq<SchemaError> {
    connections_errors(s.id, s.graph, s.graph.connections@) + nodes_errors(
        s.id,
        lib,
        s.graph.nodes@,
    )
}

/// The graph errors of the samples `ss`, in order.
pub open spec fn samples_errors(lib: SampleLibrary, ss: Seq<Sample>) -> Seq<SchemaError>
    decreases ss.len(),
{
    if ss.len() == 0 {
        seq![]
    } else {
        samples_errors(lib, ss.drop_last()) + graph_errors(lib, ss.last())
    }
}

// ---------------------------------------------------------------------------
// The colour table used by cycle detection.
// ---------------------------------------------------------------------------

/// Index of the first entry for `id` in `st`, or -1.
pub open spec fn first_index(st: Seq<(SampleId, Color)>, id: SampleId) -> int
    decreases st.len(),
{
    if st.len() == 0 {
        -1
    } else if st[0].0 == id {
        0
    } else {
        let k = first_index(st.drop_first(), id);
        if k < 0 {
            -1
        } else {
            k + 1
        }
    }
}

/// The colour of `id` in `st` (its first entry), if it has one.
pub open spec fn color_in(st: Seq<(SampleId, Color)>, id: SampleId) -> Option<Color> {
    let k = first_index(st, id);
    if k < 0 {
        None
    } else {
        Some(st[k].1)
    }
}

/// `st` with the first entry for `id` recoloured `c` (unchanged if none).
pub open spec fn set_in(st: Seq<(SampleId, Color)>, id: SampleId, c: Color) -> Seq<
    (SampleId, Color),
> {
    let k = first_index(st, id);
    if k < 0 {
        st
    } else {
        st.update(k, (id, c))
    }
}

/// How many entries of `st` are white.
pub open spec fn whites(st: Seq<(SampleId, Color)>) -> nat
    decreases st.len(),
{
    if st.len() == 0 {
        0
    } else {
        whites(st.drop_last()) + if st.last().1 == Color::White {
            1nat
        } else {
            0nat
        }
    }
}

/// The initial colour table: every sample white, in library order.
pub open spec fn initial_state(ss: Seq<Sample>) -> Seq<(SampleId, Color)> {
    ss.map_values(|s: Sample| (s.id, Color::White))
}

/// The nodes of the first sample with id `id` (none if it is unknown).
pub open spec fn sample_nodes(lib: SampleLibrary, id: SampleId) -> Seq<Node> {
    match find_sample(lib.samples@, id) {
        Some(s) => s.graph.nodes@,
        None => seq![],
    }
}

/// Depth-first search from `id` over sample references, marking gray on
/// entry and black on exit; reaching a gray sample reports a cycle through
/// it. `budget` bounds the recursion: it must be at least the number of white
/// entries for the search to run to completion.
pub open spec fn dfs(
    lib: SampleLibrary,
    id: SampleId,
    st: Seq<(SampleId, Color)>,
    errs: Seq<SchemaError>,
    budget: nat,
) -> (Seq<(SampleId, Color)>, Seq<SchemaError>)
    decreases budget, 0nat, 0nat,
{
    match color_in(st, id) {
        None => (st, errs),
        Some(Color::Black) => (st, errs),
        Some(Color::Gray) => (st, errs.push(SchemaError::SampleCycle { sample: id })),
        Some(Color::White) => if budget == 0 {
            (st, errs)
        } else {
            let r = dfs_nodes(
                lib,
                sample_nodes(lib, id),
                set_in(st, id, Color::Gray),
                errs,
                (budget - 1) as nat,
            );
            (set_in(r.0, id, Color::Black), r.1)
        },
    }
}

/// [`dfs`] into every sample reference among `nodes`, in order.
pub open spec fn dfs_nodes(
    lib: SampleLibrary,
    nodes: Seq<Node>,
    st: Seq<(SampleId, Color)>,
    errs: Seq<SchemaError>,
    budget: nat,
) -> (Seq<(SampleId, Color)>, Seq<SchemaError>)
    decreases budget, 1nat, nodes.len(),
{
    if nodes.len() == 0 {
        (st, errs)
    } else {
        match nodes[0].kind {
            NodeKind::Sample(r) => {
                let a = dfs(lib, r.sample, st, errs, budget);
                dfs_nodes(lib, nodes.drop_first(), a.0, a.1, budget)
            },
            _ => dfs_nodes(lib, nodes.drop_first(), st, errs, budget),
        }
    }
}

/// [`dfs`] from every sample of `ss`, in order, threading the colour table.
pub open spec fn dfs_all(
    lib: SampleLibrary,
    ss: Seq<Sample>,
    st: Seq<(SampleId, Color)>,
    errs: Seq<SchemaError>,
) -> Seq<SchemaError>
    decreases ss.len(),
{
    if ss.len() == 0 {
        errs
    } else {
        let a = dfs(lib, ss[0].id, st, errs, whites(st));
        dfs_all(lib, ss.drop_first(), a.0, a.1)
    }
}

/// Everything [`SampleLibrary::validate`] reports, in order: an unknown root,
/// then each sample's graph errors, then the reference cycles found by a
/// depth-first search started from every sample in library order.
pub open spec fn spec_validate(lib: SampleLibrary) -> Seq<SchemaError> {
    dfs_all(
        lib,
        lib.samples@,
        initial_state(lib.samples@),
        root_errors(lib) + samples_errors(lib, lib.samples@),
    )
}

// ---------------------------------------------------------------------------
// Lemmas on the colour table.
// ---------------------------------------------------------------------------

pub(crate) proof fn lemma_first_index(st: Seq<(SampleId, Color)>, id: SampleId)
    ensures
        first_index(st, id) < 0 ==> forall|j: int| 0 <= j < st.len() ==> (#[trigger] st[j]).0 != id,
        first_index(st, id) >= 0 ==> {
            &&& first_index(st, id) < st.len()
            &&& st[first_index(st, id)].0 == id
            &&& forall|j: int| 0 <= j < first_index(st, id) ==> (#[trigger] st[j]).0 != id
        },
        first_index(st, id) >= -1,
    decreases st.len(),
{
    if st.len() > 0 && st[0].0 != id {
        lemma_first_index(st.drop_first(), id);
        assert forall|j: int| 0 < j < st.len() implies st[j] == st.drop_first()[j - 1] by {}
    }
}

proof fn lemma_first_index_is(st: Seq<(SampleId, Color)>, id: SampleId, k: int)
    requires
        -1 <= k < st.len(),
        k >= 0 ==> st[k].0 == id,
        forall|j: int| 0 <= j < st.len() && (k < 0 || j < k) ==> (#[trigger] st[j]).0 != id,
    ensures
        first_index(st, id) == k,
{
    lemma_first_index(st, id);
    let f = first_index(st, id);
    if f >= 0 {
        if k < 0 || f < k {
            assert(st[f].0 != id);
        } else if k < f {
            assert(st[k].0 != id);
        }
    } else if k >= 0 {
        assert(st[k].0 != id);
    }
}

proof fn lemma_whites_update(st: Seq<(SampleId, Color)>, k: int, v: (SampleId, Color))
    requires
        0 <= k < st.len(),
    ensures
        whites(st.update(k, v)) + (if st[k].1 == Color::White {
            1int
        } else {
            0int
        }) == whites(st) + (if v.1 == Color::White {
            1int
        } else {
            0int
        }),
    decreases st.len(),
{
    let u = st.update(k, v);
    if k == st.len() - 1 {
        assert(u.drop_last() =~= st.drop_last());
    } else {
        assert(u.drop_last() =~= st.drop_last().update(k, v));
        lemma_whites_update(st.drop_last(), k, v);
    }
}

pub(crate) proof fn lemma_set_in_whites(st: Seq<(SampleId, Color)>, id: SampleId, c: Color)
    requires
        c != Color::White,
    ensures
        set_in(st, id, c).len() == st.len(),
        color_in(st, id) == Some(Color::White) ==> whites(set_in(st, id, c)) + 1 == whites(st),
        color_in(st, id) != Some(Color::White) ==> whites(set_in(st, id, c)) == whites(st),
{
    lemma_first_index(st, id);
    let k = first_index(st, id);
    if k >= 0 {
        lemma_whites_update(st, k, (id, c));
    }
}

// ---------------------------------------------------------------------------
// Executable validation.
// ---------------------------------------------------------------------------

fn clone_port(p: &PortId) -> (r: PortId)
    ensures
        r == *p,
{
    PortId(p.0.clone())
}

impl SampleLibrary {
    /// Validate every sample's wiring and the cross-sample reference graph.
    /// Returns all defects found (empty = valid).
    pub fn validate(&self) -> (errors: Vec<SchemaError>)
        ensures
            errors@ == spec_validate(*self),
    {
        let mut errors: Vec<SchemaError> = Vec::new();

        if let Some(root) = self.root {
            if self.sample(root).is_none() {
                errors.push(SchemaError::UnknownRoot(root));
            }
        }
        assert(errors@ =~= root_errors(*self));

        let n = self.samples.len();
        let mut i: usize = 0;
        while i < n
            invariant
                n == self.samples@.len(),
                0 <= i <= n,
                errors@ == root_errors(*self) + samples_errors(
                    *self,
                    self.samples@.subrange(0, i as int),
                ),
            decreases n - i,
        {
            let sample = &self.samples[i];
            validate_graph(sample, &sample.graph, self, &mut errors);
            proof {
                let pre = self.samples@.subrange(0, i as int);
                assert(self.samples@.subrange(0, i + 1).drop_last() =~= pre);
            }
            i += 1;
        }
        assert(self.samples@.subrange(0, n as int) =~= self.samples@);

        // Sample-reference cycle detection (3-colour DFS over the ref graph).
        let mut state: Vec<(SampleId, Color)> = Vec::new();
        let mut j: usize = 0;
        while j < n
            invariant
                n == self.samples@.len(),
                0 <= j <= n,
                state@ =~= initial_state(self.samples@.subrange(0, j as int)),
            decreases n - j,
        {
            state.push((self.samples[j].id, Color::White));
            j += 1;
        }
        assert(self.samples@.subrange(0, n as int) =~= self.samples@);

        let ghost errs0 = errors@;
        let mut k: usize = 0;
        proof {
            assert(self.samples@.skip(0) =~= self.samples@);
        }
        while k < n
            invariant
                n == self.samples@.len(),
                0 <= k <= n,
                dfs_all(*self, self.samples@, initial_state(self.samples@), errs0) == dfs_all(
                    *self,
                    self.samples@.skip(k as int),
                    state@,
                    errors@,
                ),
            decreases n - k,
        {
            proof {
                assert(self.samples@.skip(k as int).drop_first() =~= self.samples@.skip(k + 1));
            }
            let ghost b = whites(state@);
            detect_cycle(self.samples[k].id, self, &mut state, &mut errors, Ghost(b));
            k += 1;
        }
        errors
    }
}

/// Append the wiring and node defects of `graph` (the graph of `sample`).
fn validate_graph(
    sample: &Sample,
    graph: &Graph,
    lib: &SampleLibrary,
    errors: &mut Vec<SchemaError>,
)
    ensures
        final(errors)@ == old(errors)@ + connections_errors(
            sample.id,
            *graph,
            graph.connections@,
        ) + nodes_errors(sample.id, *lib, graph.nodes@),
{
    let ghost e0 = errors@;
    let nc = graph.connections.len();
    let mut i: usize = 0;
    while i < nc
        invariant
            nc == graph.connections@.len(),
            0 <= i <= nc,
            errors@ == e0 + connections_errors(
                sample.id,
                *graph,
                graph.connections@.subrange(0, i as int),
            ),
        decreases nc - i,
    {
        let conn = &graph.connections[i];
        match &conn.from {
            ConnectionSource::NodeOutput { node, .. } => {
                if !graph.has_node(*node) {
                    errors.push(SchemaError::UnknownNode { sample: sample.id, node: *node });
                }
            },
            ConnectionSource::Inlet { port } => {
                if !graph.has_inlet(port) {
                    errors.push(SchemaError::UnknownInlet { sample: sample.id, port: clone_port(port) });
                }
            },
            ConnectionSource::SeqOut { node, .. } => {
                if !graph.has_node(*node) {
                    errors.push(SchemaError::UnknownNode { sample: sample.id, node: *node });
                }
            },
        }
        match &conn.to {
            ConnectionSink::NodeInput { node, .. } => {
                if !graph.has_node(*node) {
                    errors.push(SchemaError::UnknownNode { sample: sample.id, node: *node });
                }
            },
            ConnectionSink::NodeParam { node, .. } => {
                if !graph.has_node(*node) {
                    errors.push(SchemaError::UnknownNode { sample: sample.id, node: *node });
                }
            },
            ConnectionSink::Outlet { port } => {
                if !graph.has_outlet(port) {
                    errors.push(SchemaError::UnknownOutlet { sample: sample.id, port: clone_port(port) });
                }
            },
            ConnectionSink::Trigger { node } => {
                if !graph.has_node(*node) {
                    errors.push(SchemaError::UnknownNode { sample: sample.id, node: *node });
                }
            },
        }

        // Signal-kind compatibility (the typed port matrix). Wires with a
        // dangling endpoint are skipped here: those are reported above.
        if !graph.can_wire(conn) {
            errors.push(SchemaError::IncompatibleWire { sample: sample.id });
        }
        proof {
            let pre = graph.connections@.subrange(0, i as int);
            assert(graph.connections@.subrange(0, i + 1).drop_last() =~= pre);
            assert(errors@ =~= e0 + connections_errors(sample.id, *graph, pre) + connection_errors(
                sample.id,
                *graph,
                *conn,
            ));
        }
        i += 1;
    }
    assert(graph.connections@.subrange(0, nc as int) =~= graph.connections@);

    let ghost e1 = errors@;
    let nn = graph.nodes.len();
    let mut j: usize = 0;
    while j < nn
        invariant
            nn == graph.nodes@.len(),
            0 <= j <= nn,
            errors@ == e1 + nodes_errors(sample.id, *lib, graph.nodes@.subrange(0, j as int)),
        decreases nn - j,
    {
        let node = &graph.nodes[j];
        match &node.kind {
            NodeKind::Oscillator(osc) => {
                if osc.oscillator_type == OscillatorType::Custom && osc.harmonic_count == 0 {
                    errors.push(SchemaError::MissingPeriodicWave { sample: sample.id, node: node.id });
                }
            },
            NodeKind::Sample(sref) => {
                if lib.sample(sref.sample).is_none() {
                    errors.push(SchemaError::UnknownSampleRef { sample: sample.id, target: sref.sample });
                }
            },
            _ => {},
        }
        proof {
            let pre = graph.nodes@.subrange(0, j as int);
            assert(graph.nodes@.subrange(0, j + 1).drop_last() =~= pre);
            assert(errors@ =~= e1 + nodes_errors(sample.id, *lib, pre) + node_errors(sample.id, *lib, *node));
        }
        j += 1;
    }
    assert(graph.nodes@.subrange(0, nn as int) =~= graph.nodes@);
}

/// The colour of `id` in the table, if it has an entry.
fn color_of(state: &Vec<(SampleId, Color)>, id: SampleId) -> (r: Option<Color>)
    ensures
        r == color_in(state@, id),
{
    let n = state.len();
    let mut i: usize = 0;
    while i < n
        invariant
            n == state@.len(),
            0 <= i <= n,
            forall|j: int| 0 <= j < i ==> (#[trigger] state@[j]).0 != id,
        decreases n - i,
    {
        if state[i].0 == id {
            proof {
                lemma_first_index_is(state@, id, i as int);
            }
            return Some(state[i].1);
        }
        i += 1;
    }
    proof {
        lemma_first_index_is(state@, id, -1);
    }
    None
}

/// Recolour the first entry for `id` (no-op if it has none).
fn set_color(state: &mut Vec<(SampleId, Color)>, id: SampleId, color: Color)
    ensures
        final(state)@ == set_in(old(state)@, id, color),
{
    let n = state.len();
    let mut i: usize = 0;
    while i < n
        invariant
            n == state@.len(),
            state@ == old(state)@,
            0 <= i <= n,
            forall|j: int| 0 <= j < i ==> (#[trigger] state@[j]).0 != id,
        decreases n - i,
    {
        if state[i].0 == id {
            proof {
                lemma_first_index_is(state@, id, i as int);
            }
            state.set(i, (id, color));
            return;
        }
        i += 1;
    }
    proof {
        lemma_first_index_is(state@, id, -1);
    }
}

/// DFS marking gray-on-enter / black-on-exit; a back-edge to a gray sample is
/// a cycle. Unknown refs are ignored here (graph validation reports them).
fn detect_cycle(
    id: SampleId,
    lib: &SampleLibrary,
    state: &mut Vec<(SampleId, Color)>,
    errors: &mut Vec<SchemaError>,
    Ghost(budget): Ghost<nat>,
)
    requires
        whites(old(state)@) <= budget,
    ensures
        (final(state)@, final(errors)@) == dfs(*lib, id, old(state)@, old(errors)@, budget),
        whites(final(state)@) <= whites(old(state)@),
        final(state)@.len() == old(state)@.len(),
    decreases budget,
{
    match color_of(state, id) {
        Some(Color::Black) | None => return ,
        Some(Color::Gray) => {
            errors.push(SchemaError::SampleCycle { sample: id });
            return ;
        },
        Some(Color::White) => {},
    }
    let ghost st0 = state@;
    proof {
        lemma_set_in_whites(st0, id, Color::Gray);
    }
    set_color(state, id, Color::Gray);
    let ghost st1 = state@;
    let ghost e0 = errors@;
    let ghost b1: nat = (budget - 1) as nat;
    assert(b1 + 1 == budget);

    if let Some(sample) = lib.sample(id) {
        let nn = sample.graph.nodes.len();
        let mut i: usize = 0;
        proof {
            assert(sample.graph.nodes@.skip(0) =~= sample.graph.nodes@);
        }
        while i < nn
            invariant
                nn == sample.graph.nodes@.len(),
                0 <= i <= nn,
                sample_nodes(*lib, id) == sample.graph.nodes@,
                dfs_nodes(*lib, sample.graph.nodes@, st1, e0, b1) == dfs_nodes(
                    *lib,
                    sample.graph.nodes@.skip(i as int),
                    state@,
                    errors@,
                    b1,
                ),
                whites(state@) <= whites(st1),
                whites(st1) <= b1,
                b1 + 1 == budget,
                state@.len() == st1.len(),
            decreases nn - i,
        {
            proof {
                assert(sample.graph.nodes@.skip(i as int).drop_first() =~= sample.graph.nodes@.skip(
                    i + 1,
                ));
            }
            if let NodeKind::Sample(sref) = &sample.graph.nodes[i].kind {
                detect_cycle(sref.sample, lib, state, errors, Ghost(b1));
            }
            i += 1;
        }
    }
    let ghost st2 = state@;
    proof {
        lemma_set_in_whites(st2, id, Color::Black);
    }
    set_color(state, id, Color::Black);
}

} // verus!
