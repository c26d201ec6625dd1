//! The document model: a [`SampleLibrary`] of samples, each holding a node
//! [`Graph`]. Only the parts that the editor's structural logic reads are held
//! here, all as plain values.

use vstd::prelude::*;

use crate::enums::{OscillatorType, WaveShaperShape};

verus! {

/// Identifies a sample (a Sound or an Arrangement) within a library.
#[derive(Debug, Clone, Copy, PartialEq, Eq, Hash, Structural)]
pub struct SampleId(pub u64);

/// Identifies a node within one sample's graph.
#[derive(Debug, Clone, Copy, PartialEq, Eq, Hash, Structural)]
pub struct NodeId(pub u64);

/// Names a boundary port (an inlet or outlet) of a sample's graph.
#[derive(Debug, Clone, PartialEq, Eq)]
pub struct PortId(pub String);

/// Names an automatable parameter of a node.
#[derive(Debug, Clone)]
pub struct ParamId(pub String);

/// Whether a sample is a playable Sound graph or a timeline Arrangement.
#[derive(Debug, Clone, Copy, PartialEq, Eq, Structural)]
pub enum SampleKind {
    Sound,
    Arrangement,
}

/// The sequencing style of a note sequencer: pitched tracks, or a drum kit
/// where every pitch row is its own sound.
#[derive(Debug, Clone, Copy, PartialEq, Eq, Structural)]
pub enum SequencerMode {
    Melodic,
    Drum,
}

impl SequencerMode {
    pub open spec fn spec_is_drum(&self) -> bool {
        *self == SequencerMode::Drum
    }

    /// Whether this is a drum-kit sequencer.
    #[verifier::when_used_as_spec(spec_is_drum)]
    pub fn is_drum(&self) -> (r: bool)
        ensures
            r == self.spec_is_drum(),
    {
        match self {
            SequencerMode::Drum => true,
            SequencerMode::Melodic => false,
        }
    }
}

/// An oscillator source: its waveform and, for a custom waveform, how many
/// harmonic amplitudes (partials) its periodic wave has.
#[derive(Debug, Clone)]
pub struct OscillatorNode {
    pub oscillator_type: OscillatorType,
    pub harmonic_count: usize,
}

/// Splits a multichannel signal into `number_of_outputs` mono outputs.
#[derive(Debug, Clone)]
pub struct ChannelSplitterNode {
    pub number_of_outputs: u32,
}

/// Merges `number_of_inputs` mono inputs into one multichannel output.
#[derive(Debug, Clone)]
pub struct ChannelMergerNode {
    pub number_of_inputs: u32,
}

/// A wave shaper: the distortion character its curve is generated from.
#[derive(Debug, Clone)]
pub struct WaveShaperNode {
    pub shape: WaveShaperShape,
}

/// A reference to another sample, embedded as a node.
#[derive(Debug, Clone)]
pub struct SampleRef {
    pub sample: SampleId,
}

/// One keyed sound output of a note sequencer (a melodic track or a drum
/// note); the key is the stable identity a trigger wire binds to.
#[derive(Debug, Clone)]
pub struct SoundOut {
    pub key: String,
}

/// One keyed lane of a control sequencer.
#[derive(Debug, Clone)]
pub struct ControlLane {
    pub key: String,
}

/// A note sequencer node and its keyed sound outputs.
#[derive(Debug, Clone)]
pub struct NoteSequencerNode {
    pub mode: SequencerMode,
    pub outputs: Vec<SoundOut>,
}

/// A control sequencer node and its keyed lanes.
#[derive(Debug, Clone)]
pub struct ControlSequencerNode {
    pub lanes: Vec<ControlLane>,
}

/// Every kind of node a graph can hold.
#[derive(Debug, Clone)]
pub enum NodeKind {
    Oscillator(OscillatorNode),
    AudioBufferSource,
    ConstantSource,
    Noise,
    MediaElementSource,
    MediaStreamSource,
    Gain,
    BiquadFilter,
    IirFilter,
    Delay,
    DynamicsCompressor,
    WaveShaper(WaveShaperNode),
    Convolver,
    Panner,
    StereoPanner,
    Analyser,
    ChannelSplitter(ChannelSplitterNode),
    ChannelMerger(ChannelMergerNode),
    AudioWorklet,
    Output,
    SpatialOutput,
    Sample(SampleRef),
    NoteSequencer(NoteSequencerNode),
    ControlSequencer(ControlSequencerNode),
    Bus,
}

/// A node of a graph.
#[derive(Debug, Clone)]
pub struct Node {
    pub id: NodeId,
    pub kind: NodeKind,
}

/// A declared boundary port of a graph.
#[derive(Debug, Clone)]
pub struct Port {
    pub id: PortId,
}

/// Where a wire starts.
#[derive(Debug, Clone)]
pub enum ConnectionSource {
    /// An audio output of a node.
    NodeOutput { node: NodeId, output: u32 },
    /// One of the graph's own inlets.
    Inlet { port: PortId },
    /// A keyed output of a sequencer node.
    SeqOut { node: NodeId, key: String },
}

/// Where a wire ends.
#[derive(Debug, Clone)]
pub enum ConnectionSink {
    /// An audio input of a node.
    NodeInput { node: NodeId, input: u32 },
    /// An automatable parameter of a node (modulation).
    NodeParam { node: NodeId, param: ParamId },
    /// One of the graph's own outlets.
    Outlet { port: PortId },
    /// The trigger inlet of an instrument node (played by a sequencer).
    Trigger { node: NodeId },
}

/// A wire.
#[derive(Debug, Clone)]
pub struct Connection {
    pub from: ConnectionSource,
    pub to: ConnectionSink,
}

/// A sample's node graph with its boundary ports.
#[derive(Debug, Clone)]
pub struct Graph {
    pub nodes: Vec<Node>,
    pub connections: Vec<Connection>,
    pub inlets: Vec<Port>,
    pub outlets: Vec<Port>,
}

/// One sample of a library.
#[derive(Debug, Clone)]
pub struct Sample {
    pub id: SampleId,
    pub name: String,
    pub kind: SampleKind,
    pub graph: Graph,
}

/// A whole project: its samples and the one that plays.
#[derive(Debug, Clone)]
pub struct SampleLibrary {
    pub samples: Vec<Sample>,
    pub root: Option<SampleId>,
}

/// The kind of signal a wire carries.
#[derive(Debug, Clone, Copy, PartialEq, Eq, Structural)]
pub enum SignalKind {
    /// An audio-rate signal.
    Audio,
    /// A control curve (a control sequencer lane).
    Control,
    /// Note triggers (a note sequencer output).
    Trigger,
}

// ---------------------------------------------------------------------------
// Lookups, as mathematics.
// ---------------------------------------------------------------------------

/// The first sample of `samples` whose id is `id`.
pub open spec fn find_sample(samples: Seq<Sample>, id: SampleId) -> Option<Sample>
    decreases samples.len(),
{
    if samples.len() == 0 {
        None
    } else if samples[0].id == id {
        Some(samples[0])
    } else {
        find_sample(samples.drop_first(), id)
    }
}

/// The kind of the first node of `nodes` whose id is `id`.
pub open spec fn find_node_kind(nodes: Seq<Node>, id: NodeId) -> Option<NodeKind>
    decreases nodes.len(),
{
    if nodes.len() == 0 {
        None
    } else if nodes[0].id == id {
        Some(nodes[0].kind)
    } else {
        find_node_kind(nodes.drop_first(), id)
    }
}

/// Whether some node of `nodes` has id `id`.
pub open spec fn has_node_id(nodes: Seq<Node>, id: NodeId) -> bool {
    exists|i: int| 0 <= i < nodes.len() && (#[trigger] nodes[i]).id == id
}

/// Whether some port of `ports` is named `name`.
pub open spec fn has_port_id(ports: Seq<Port>, name: Seq<char>) -> bool {
    exists|i: int| 0 <= i < ports.len() && (#[trigger] ports[i]).id.0@ == name
}

/// The signal a wire's source produces, or `None` when the source does not
/// resolve within the graph (a dangling endpoint).
pub open spec fn source_signal(g: Graph, from: ConnectionSource) -> Option<SignalKind> {
    match from {
        ConnectionSource::NodeOutput { node, .. } => if has_node_id(g.nodes@, node) {
            Some(SignalKind::Audio)
        } else {
            None
        },
        ConnectionSource::Inlet { port } => if has_port_id(g.inlets@, port.0@) {
            Some(SignalKind::Audio)
        } else {
            None
        },
        ConnectionSource::SeqOut { node, .. } => match find_node_kind(g.nodes@, node) {
            Some(NodeKind::NoteSequencer(_)) => Some(SignalKind::Trigger),
            Some(NodeKind::ControlSequencer(_)) => Some(SignalKind::Control),
            _ => None,
        },
    }
}

/// Whether a wire's sink resolves within the graph.
pub open spec fn sink_resolves(g: Graph, to: ConnectionSink) -> bool {
    match to {
        ConnectionSink::NodeInput { node, .. } => has_node_id(g.nodes@, node),
        ConnectionSink::NodeParam { node, .. } => has_node_id(g.nodes@, node),
        ConnectionSink::Outlet { port } => has_port_id(g.outlets@, port.0@),
        ConnectionSink::Trigger { node } => has_node_id(g.nodes@, node),
    }
}

/// Whether a (resolved) sink accepts a signal of kind `s`: audio inputs and
/// outlets take audio, parameters take audio or control curves, trigger
/// inlets take triggers.
pub open spec fn sink_accepts(to: ConnectionSink, s: SignalKind) -> bool {
    match to {
        ConnectionSink::NodeInput { .. } => s == SignalKind::Audio,
        ConnectionSink::NodeParam { .. } => s == SignalKind::Audio || s == SignalKind::Control,
        ConnectionSink::Outlet { .. } => s == SignalKind::Audio,
        ConnectionSink::Trigger { .. } => s == SignalKind::Trigger,
    }
}

/// The typed port matrix: a wire is compatible when its sink accepts the
/// signal its source produces. Wires whose source produces no signal (a
/// dangling endpoint, or a keyed output on a node that is no sequencer) or
/// whose sink does not resolve are not judged here; dangling endpoints are
/// reported as unknown references instead.
pub open spec fn spec_can_wire(g: Graph, c: Connection) -> bool {
    match source_signal(g, c.from) {
        None => true,
        Some(s) => !sink_resolves(g, c.to) || sink_accepts(c.to, s),
    }
}

// ---------------------------------------------------------------------------
// Executable lookups.
// ---------------------------------------------------------------------------

/// Whether two port names are equal.
fn same_name(a: &String, b: &String) -> (r: bool)
    ensures
        r == (a@ == b@),
{
    a.eq(b)
}

impl SampleLibrary {
    /// The first sample whose id is `id`, if any.
    pub fn sample(&self, id: SampleId) -> (r: Option<&Sample>)
        ensures
            match r {
                Some(s) => find_sample(self.samples@, id) == Some(*s),
                None => find_sample(self.samples@, id) is None,
            },
    {
        let n = self.samples.len();
        let mut i: usize = 0;
        proof {
            assert(self.samples@.skip(0) =~= self.samples@);
        }
        while i < n
            invariant
                n == self.samples@.len(),
                0 <= i <= n,
                find_sample(self.samples@, id) == find_sample(self.samples@.skip(i as int), id),
            decreases n - i,
        {
            proof {
                assert(self.samples@.skip(i as int).drop_first() =~= self.samples@.skip(i + 1));
            }
            if self.samples[i].id == id {
                return Some(&self.samples[i]);
            }
            i += 1;
        }
        None
    }
}

impl Graph {
    /// Whether the graph has a node with id `id`.
    pub fn has_node(&self, id: NodeId) -> (r: bool)
        ensures
            r == has_node_id(self.nodes@, id),
    {
        let n = self.nodes.len();
        let mut i: usize = 0;
        while i < n
            invariant
                n == self.nodes@.len(),
                0 <= i <= n,
                forall|j: int| 0 <= j < i ==> (#[trigger] self.nodes@[j]).id != id,
            decreases n - i,
        {
            if self.nodes[i].id == id {
                return true;
            }
            i += 1;
        }
        false
    }

    /// The kind of the first node with id `id`, if any.
    pub fn node_kind(&self, id: NodeId) -> (r: Option<&NodeKind>)
        ensures
            match r {
                Some(k) => find_node_kind(self.nodes@, id) == Some(*k),
                None => find_node_kind(self.nodes@, id) is None,
            },
    {
        let n = self.nodes.len();
        let mut i: usize = 0;
        proof {
            assert(self.nodes@.skip(0) =~= self.nodes@);
        }
        while i < n
            invariant
                n == self.nodes@.len(),
                0 <= i <= n,
                find_node_kind(self.nodes@, id) == find_node_kind(self.nodes@.skip(i as int), id),
            decreases n - i,
        {
            proof {
                assert(self.nodes@.skip(i as int).drop_first() =~= self.nodes@.skip(i + 1));
            }
            if self.nodes[i].id == id {
                return Some(&self.nodes[i].kind);
            }
            i += 1;
        }
        None
    }

    /// Whether the graph declares an inlet named `port`.
    pub fn has_inlet(&self, port: &PortId) -> (r: bool)
        ensures
            r == has_port_id(self.inlets@, port.0@),
    {
        has_port(&self.inlets, port)
    }

    /// Whether the graph declares an outlet named `port`.
    pub fn has_outlet(&self, port: &PortId) -> (r: bool)
        ensures
            r == has_port_id(self.outlets@, port.0@),
    {
        has_port(&self.outlets, port)
    }

    /// Whether wire `c` is compatible under the typed port matrix.
    pub fn can_wire(&self, c: &Connection) -> (r: bool)
        ensures
            r == spec_can_wire(*self, *c),
    {
        let produced = match &c.from {
            ConnectionSource::NodeOutput { node, .. } => if self.has_node(*node) {
                Some(SignalKind::Audio)
            } else {
                None
            },
            ConnectionSource::Inlet { port } => if self.has_inlet(port) {
                Some(SignalKind::Audio)
            } else {
                None
            },
            ConnectionSource::SeqOut { node, .. } => match self.node_kind(*node) {
                Some(NodeKind::NoteSequencer(_)) => Some(SignalKind::Trigger),
                Some(NodeKind::ControlSequencer(_)) => Some(SignalKind::Control),
                _ => None,
            },
        };
        match produced {
            None => true,
            Some(s) => {
                let resolves = match &c.to {
                    ConnectionSink::NodeInput { node, .. } => self.has_node(*node),
                    ConnectionSink::NodeParam { node, .. } => self.has_node(*node),
                    ConnectionSink::Outlet { port } => self.has_outlet(port),
                    ConnectionSink::Trigger { node } => self.has_node(*node),
                };
                let accepts = match &c.to {
                    ConnectionSink::NodeInput { .. } => s == SignalKind::Audio,
                    ConnectionSink::NodeParam { .. } => s == SignalKind::Audio || s
                        == SignalKind::Control,
                    ConnectionSink::Outlet { .. } => s == SignalKind::Audio,
                    ConnectionSink::Trigger { .. } => s == SignalKind::Trigger,
                };
                !resolves || accepts
            },
        }
    }
}

fn has_port(ports: &Vec<Port>, port: &PortId) -> (r: bool)
    ensures
        r == has_port_id(ports@, port.0@),
{
    let n = ports.len();
    let mut i: usize = 0;
    while i < n
        invariant
            n == ports@.len(),
            0 <= i <= n,
            forall|j: int| 0 <= j < i ==> (#[trigger] ports@[j]).id.0@ != port.0@,
        decreases n - i,
    {
        if same_name(&ports[i].id.0, &port.0) {
            return true;
        }
        i += 1;
    }
    false
}

} // verus!
