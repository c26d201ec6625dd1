//! Node port structure, derived from a node's [`NodeKind`]: how many audio
//! inputs and outputs it shows, the keyed outputs of sequencers, and the
//! human-readable type name.

use vstd::prelude::*;

use crate::schema::{ControlLane, NodeKind, SoundOut};

verus! {

/// Which side of a node a port lives on.
#[derive(Debug, Clone, Copy, PartialEq, Eq, Structural)]
pub enum PortSide {
    In,
    Out,
}

/// `max(n, 1)` truncated to `u32` (the count of a keyed output list).
pub open spec fn at_least_one(n: nat) -> u32 {
    (if n == 0 {
        1
    } else {
        n
    }) as u32
}

/// `(inputs, outputs)` audio-port counts for a node kind.
pub open spec fn spec_port_counts(kind: NodeKind) -> (u32, u32) {
    match kind {
        NodeKind::Oscillator(_) | NodeKind::AudioBufferSource | NodeKind::ConstantSource
        | NodeKind::Noise | NodeKind::MediaElementSource | NodeKind::MediaStreamSource => (0, 1),
        NodeKind::Gain | NodeKind::BiquadFilter | NodeKind::IirFilter | NodeKind::Delay
        | NodeKind::DynamicsCompressor | NodeKind::WaveShaper(_) | NodeKind::Convolver
        | NodeKind::Panner | NodeKind::StereoPanner | NodeKind::Analyser => (1, 1),
        NodeKind::ChannelSplitter(n) => (
            1,
            if n.number_of_outputs == 0 {
                1
            } else {
                n.number_of_outputs
            },
        ),
        NodeKind::ChannelMerger(n) => (
            if n.number_of_inputs == 0 {
                1
            } else {
                n.number_of_inputs
            },
            1,
        ),
        NodeKind::AudioWorklet => (1, 1),
        NodeKind::Output | NodeKind::SpatialOutput => (1, 0),
        NodeKind::Sample(_) => (1, 1),
        NodeKind::NoteSequencer(s) => (0, at_least_one(s.outputs@.len())),
        NodeKind::ControlSequencer(s) => (0, at_least_one(s.lanes@.len())),
        NodeKind::Bus => (1, 1),
    }
}

/// `(inputs, outputs)` audio-port counts for a node kind. Sources have no
/// input, sinks no output; splitters and mergers fan out/in (at least one
/// port); sequencers have one output per sound or lane (at least one, so a
/// fresh node is wirable).
pub fn port_counts(kind: &NodeKind) -> (r: (u32, u32))
    ensures
        r == spec_port_counts(*kind),
{
    match kind {
        // Pure sources: no audio input.
        NodeKind::Oscillator(_)
        | NodeKind::AudioBufferSource
        | NodeKind::ConstantSource
        | NodeKind::Noise
        | NodeKind::MediaElementSource
        | NodeKind::MediaStreamSource => (0, 1),
        // Single in / single out processors.
        NodeKind::Gain
        | NodeKind::BiquadFilter
        | NodeKind::IirFilter
        | NodeKind::Delay
        | NodeKind::DynamicsCompressor
        | NodeKind::WaveShaper(_)
        | NodeKind::Convolver
        | NodeKind::Panner
        | NodeKind::StereoPanner
        | NodeKind::Analyser => (1, 1),
        // Routing fan-out / fan-in.
        NodeKind::ChannelSplitter(n) => (1, max_u32(n.number_of_outputs, 1)),
        NodeKind::ChannelMerger(n) => (max_u32(n.number_of_inputs, 1), 1),
        // WASM worklet: 1-in/1-out.
        NodeKind::AudioWorklet => (1, 1),
        // The output sinks: one input, no output.
        NodeKind::Output | NodeKind::SpatialOutput => (1, 0),
        // A referenced sub-sample: 1/1 until its declared ports are resolved.
        NodeKind::Sample(_) => (1, 1),
        // Sequencers: no audio input; one output per sound / lane.
        NodeKind::NoteSequencer(s) => (0, count_at_least_one(s.outputs.len())),
        NodeKind::ControlSequencer(s) => (0, count_at_least_one(s.lanes.len())),
        // A bus: sums many inputs into one output.
        NodeKind::Bus => (1, 1),
    }
}

fn max_u32(a: u32, b: u32) -> (r: u32)
    ensures
        r == if a >= b {
            a
        } else {
            b
        },
{
    if a >= b {
        a
    } else {
        b
    }
}

fn count_at_least_one(n: usize) -> (r: u32)
    ensures
        r == at_least_one(n as nat),
{
    let m: usize = if n == 0 {
        1
    } else {
        n
    };
    #[verifier::truncate]
    (m as u32)
}

/// Whether a node is a sequencer (its outputs are keyed bindings, not audio).
pub fn is_sequencer(kind: &NodeKind) -> (r: bool)
    ensures
        r == (kind is NoteSequencer || kind is ControlSequencer),
{
    match kind {
        NodeKind::NoteSequencer(_) | NodeKind::ControlSequencer(_) => true,
        _ => false,
    }
}

/// The keys of a sequencer's outputs, in port order (none for other kinds).
pub open spec fn output_keys(kind: NodeKind) -> Seq<Seq<char>> {
    match kind {
        NodeKind::NoteSequencer(s) => s.outputs@.map_values(|o: SoundOut| o.key@),
        NodeKind::ControlSequencer(s) => s.lanes@.map_values(|l: ControlLane| l.key@),
        _ => seq![],
    }
}

/// The position of the first entry of `keys` equal to `key`.
pub open spec fn key_position(keys: Seq<Seq<char>>, key: Seq<char>) -> Option<int>
    decreases keys.len(),
{
    if keys.len() == 0 {
        None
    } else if keys[0] == key {
        Some(0)
    } else {
        match key_position(keys.drop_first(), key) {
            Some(p) => Some(p + 1),
            None => None,
        }
    }
}

/// The stable key of a sequencer's output port at `idx` (sound / lane), if
/// any: the identity a keyed wire binds to (never the index).
pub fn seq_key_at(kind: &NodeKind, idx: usize) -> (r: Option<String>)
    ensures
        match r {
            Some(k) => idx < output_keys(*kind).len() && k@ == output_keys(*kind)[idx as int],
            None => idx >= output_keys(*kind).len(),
        },
{
    match kind {
        NodeKind::NoteSequencer(s) => {
            if idx < s.outputs.len() {
                Some(s.outputs[idx].key.clone())
            } else {
                None
            }
        },
        NodeKind::ControlSequencer(s) => {
            if idx < s.lanes.len() {
                Some(s.lanes[idx].key.clone())
            } else {
                None
            }
        },
        _ => None,
    }
}

proof fn lemma_key_position(keys: Seq<Seq<char>>, key: Seq<char>, i: int)
    requires
        0 <= i <= keys.len(),
        forall|j: int| 0 <= j < i ==> keys[j] != key,
    ensures
        i < keys.len() && keys[i] == key ==> key_position(keys, key) == Some(i),
        i == keys.len() ==> key_position(keys, key) is None,
    decreases i,
{
    if i > 0 {
        let t = keys.drop_first();
        assert forall|j: int| 0 <= j < i - 1 implies t[j] != key by {
            assert(t[j] == keys[j + 1]);
        }
        lemma_key_position(t, key, i - 1);
        if i < keys.len() {
            assert(t[i - 1] == keys[i]);
        }
    }
}

proof fn lemma_key_position_bound(keys: Seq<Seq<char>>, key: Seq<char>)
    ensures
        key_position(keys, key) matches Some(p) ==> 0 <= p < keys.len(),
    decreases keys.len(),
{
    if keys.len() > 0 {
        lemma_key_position_bound(keys.drop_first(), key);
    }
}

/// The index of the first sound output keyed `wanted`.
fn sound_key_index(outs: &Vec<SoundOut>, wanted: &String) -> (r: Option<usize>)
    ensures
        match r {
            Some(i) => key_position(outs@.map_values(|o: SoundOut| o.key@), wanted@) == Some(i as int),
            None => key_position(outs@.map_values(|o: SoundOut| o.key@), wanted@) is None,
        },
{
    let ghost keys = outs@.map_values(|o: SoundOut| o.key@);
    let n = outs.len();
    let mut i: usize = 0;
    while i < n
        invariant
            n == outs@.len(),
            keys == outs@.map_values(|o: SoundOut| o.key@),
            0 <= i <= n,
            forall|j: int| 0 <= j < i ==> keys[j] != wanted@,
        decreases n - i,
    {
        if outs[i].key.eq(wanted) {
            proof {
                lemma_key_position(keys, wanted@, i as int);
            }
            return Some(i);
        }
        i += 1;
    }
    proof {
        lemma_key_position(keys, wanted@, n as int);
    }
    None
}

/// The index of the first control lane keyed `wanted`.
fn lane_key_index(lanes: &Vec<ControlLane>, wanted: &String) -> (r: Option<usize>)
    ensures
        match r {
            Some(i) => key_position(lanes@.map_values(|l: ControlLane| l.key@), wanted@) == Some(i as int),
            None => key_position(lanes@.map_values(|l: ControlLane| l.key@), wanted@) is None,
        },
{
    let ghost keys = lanes@.map_values(|l: ControlLane| l.key@);
    let n = lanes.len();
    let mut i: usize = 0;
    while i < n
        invariant
            n == lanes@.len(),
            keys == lanes@.map_values(|l: ControlLane| l.key@),
            0 <= i <= n,
            forall|j: int| 0 <= j < i ==> keys[j] != wanted@,
        decreases n - i,
    {
        if lanes[i].key.eq(wanted) {
            proof {
                lemma_key_position(keys, wanted@, i as int);
            }
            return Some(i);
        }
        i += 1;
    }
    proof {
        lemma_key_position(keys, wanted@, n as int);
    }
    None
}

/// The output-port index of the sequencer output whose key is `key`: the
/// inverse of [`seq_key_at`], for resolving a keyed wire back to a port.
pub fn seq_index_of(kind: &NodeKind, key: &str) -> (r: Option<u32>)
    ensures
        r == match key_position(output_keys(*kind), key@) {
            Some(p) => Some(p as u32),
            None => None,
        },
{
    let wanted = String::from_str(key);
    let pos: Option<usize> = match kind {
        NodeKind::NoteSequencer(s) => sound_key_index(&s.outputs, &wanted),
        NodeKind::ControlSequencer(s) => lane_key_index(&s.lanes, &wanted),
        _ => None,
    };
    proof {
        lemma_key_position_bound(output_keys(*kind), key@);
    }
    match pos {
        Some(p) => {
            let q: u32 = #[verifier::truncate] (p as u32);
            assert(q == (p as int) as u32);
            Some(q)
        },
        None => None,
    }
}

/// Resolving a port's key gives the port back: for every output port whose
/// key no earlier port shares, looking its key up finds that port's index;
/// and whatever index a lookup finds holds the key looked up.
pub proof fn lemma_key_lookup_inverts(kind: NodeKind, idx: int, key: Seq<char>)
    ensures
        0 <= idx < output_keys(kind).len() && (forall|j: int|
            0 <= j < idx ==> output_keys(kind)[j] != output_keys(kind)[idx]) ==> key_position(
            output_keys(kind),
            output_keys(kind)[idx],
        ) == Some(idx),
        key_position(output_keys(kind), key) matches Some(p) ==> 0 <= p < output_keys(kind).len()
            && output_keys(kind)[p] == key,
{
    let keys = output_keys(kind);
    if 0 <= idx < keys.len() && (forall|j: int| 0 <= j < idx ==> keys[j] != keys[idx]) {
        lemma_key_position(keys, keys[idx], idx);
    }
    lemma_key_position_found(keys, key);
}

proof fn lemma_key_position_found(keys: Seq<Seq<char>>, key: Seq<char>)
    ensures
        key_position(keys, key) matches Some(p) ==> 0 <= p < keys.len() && keys[p] == key,
    decreases keys.len(),
{
    if keys.len() > 0 && keys[0] != key {
        lemma_key_position_found(keys.drop_first(), key);
    }
}

/// The human-readable node type name shown in the title bar and palette.
pub open spec fn spec_kind_label(kind: NodeKind) -> Seq<char> {
    match kind {
        NodeKind::Oscillator(_) => "Oscillator"@,
        NodeKind::AudioBufferSource => "Buffer Source"@,
        NodeKind::ConstantSource => "Constant Source"@,
        NodeKind::Noise => "Noise"@,
        NodeKind::MediaElementSource => "Media Element"@,
        NodeKind::MediaStreamSource => "Media Stream"@,
        NodeKind::Gain => "Gain"@,
        NodeKind::BiquadFilter => "Biquad Filter"@,
        NodeKind::IirFilter => "IIR Filter"@,
        NodeKind::Delay => "Delay"@,
        NodeKind::DynamicsCompressor => "Compressor"@,
        NodeKind::WaveShaper(_) => "Wave Shaper"@,
        NodeKind::Convolver => "Convolver"@,
        NodeKind::Panner => "Panner"@,
        NodeKind::StereoPanner => "Stereo Panner"@,
        NodeKind::Analyser => "Analyser"@,
        NodeKind::ChannelSplitter(_) => "Channel Splitter"@,
        NodeKind::ChannelMerger(_) => "Channel Merger"@,
        NodeKind::AudioWorklet => "Audio Worklet"@,
        NodeKind::Output => "Output"@,
        NodeKind::SpatialOutput => "Spatial Output"@,
        NodeKind::Sample(_) => "Sample"@,
        NodeKind::NoteSequencer(s) => if s.mode.is_drum() {
            "Drum Sequencer"@
        } else {
            "Melodic Sequencer"@
        },
        NodeKind::ControlSequencer(_) => "Control Sequencer"@,
        NodeKind::Bus => "Bus"@,
    }
}

/// Human-readable node type name for the title bar and palette.
pub fn kind_label(kind: &NodeKind) -> (r: &'static str)
    ensures
        r@ == spec_kind_label(*kind),
{
    match kind {
        NodeKind::Oscillator(_) => "Oscillator",
        NodeKind::AudioBufferSource => "Buffer Source",
        NodeKind::ConstantSource => "Constant Source",
        NodeKind::Noise => "Noise",
        NodeKind::MediaElementSource => "Media Element",
        NodeKind::MediaStreamSource => "Media Stream",
        NodeKind::Gain => "Gain",
        NodeKind::BiquadFilter => "Biquad Filter",
        NodeKind::IirFilter => "IIR Filter",
        NodeKind::Delay => "Delay",
        NodeKind::DynamicsCompressor => "Compressor",
        NodeKind::WaveShaper(_) => "Wave Shaper",
        NodeKind::Convolver => "Convolver",
        NodeKind::Panner => "Panner",
        NodeKind::StereoPanner => "Stereo Panner",
        NodeKind::Analyser => "Analyser",
        NodeKind::ChannelSplitter(_) => "Channel Splitter",
        NodeKind::ChannelMerger(_) => "Channel Merger",
        NodeKind::AudioWorklet => "Audio Worklet",
        NodeKind::Output => "Output",
        NodeKind::SpatialOutput => "Spatial Output",
        NodeKind::Sample(_) => "Sample",
        NodeKind::NoteSequencer(s) => {
            if s.mode.is_drum() {
                "Drum Sequencer"
            } else {
                "Melodic Sequencer"
            }
        },
        NodeKind::ControlSequencer(_) => "Control Sequencer",
        NodeKind::Bus => "Bus",
    }
}

/// The pure sources (oscillators, buffer, constant, noise and media
/// sources) have no audio input and one audio output.
pub proof fn lemma_sources_have_no_input(kind: NodeKind)
    requires
        kind is Oscillator || kind is AudioBufferSource || kind is ConstantSource || kind is Noise
            || kind is MediaElementSource || kind is MediaStreamSource,
    ensures
        spec_port_counts(kind).0 == 0,
        spec_port_counts(kind).1 == 1,
{
}

/// Every processor (gain, filters, delay, compressor, wave shaper,
/// convolver, panners, analyser, worklet, bus, and an embedded sample) has
/// exactly one audio input and one audio output.
pub proof fn lemma_processors_are_one_in_one_out(kind: NodeKind)
    requires
        kind is Gain || kind is BiquadFilter || kind is IirFilter || kind is Delay
            || kind is DynamicsCompressor || kind is WaveShaper || kind is Convolver
            || kind is Panner || kind is StereoPanner || kind is Analyser || kind is AudioWorklet
            || kind is Bus || kind is Sample,
    ensures
        spec_port_counts(kind).0 == 1,
        spec_port_counts(kind).1 == 1,
{
}

/// The outputs (plain and spatial) take one audio input and give none.
pub proof fn lemma_outputs_are_sinks(kind: NodeKind)
    requires
        kind is Output || kind is SpatialOutput,
    ensures
        spec_port_counts(kind).0 == 1,
        spec_port_counts(kind).1 == 0,
{
}

/// A splitter has one input and as many outputs as it splits into, a
/// merger one output and as many inputs as it merges (at least one each).
pub proof fn lemma_splitter_merger_ports(kind: NodeKind)
    ensures
        kind matches NodeKind::ChannelSplitter(n) ==> spec_port_counts(kind).0 == 1
            && spec_port_counts(kind).1 == if n.number_of_outputs >= 1 {
            n.number_of_outputs
        } else {
            1
        },
        kind matches NodeKind::ChannelMerger(n) ==> spec_port_counts(kind).1 == 1
            && spec_port_counts(kind).0 == if n.number_of_inputs >= 1 {
            n.number_of_inputs
        } else {
            1
        },
{
}

/// A sequencer has no audio input, and one output per sound or lane (one
/// when it has none), for any count that fits the `u32` port count.
pub proof fn lemma_sequencer_ports(kind: NodeKind)
    ensures
        kind matches NodeKind::NoteSequencer(s) ==> spec_port_counts(kind).0 == 0 && (
        s.outputs@.len() <= u32::MAX ==> spec_port_counts(kind).1 == if s.outputs@.len() == 0 {
            1
        } else {
            s.outputs@.len()
        }),
        kind matches NodeKind::ControlSequencer(s) ==> spec_port_counts(kind).0 == 0 && (
        s.lanes@.len() <= u32::MAX ==> spec_port_counts(kind).1 == if s.lanes@.len() == 0 {
            1
        } else {
            s.lanes@.len()
        }),
{
}

/// Only the source kinds and the sequencers lack an audio input; every
/// kind but the outputs has at least one audio output (a sequencer's count
/// taken where it fits the `u32` port count).
pub proof fn lemma_inputs_and_outputs(kind: NodeKind)
    requires
        kind matches NodeKind::NoteSequencer(s) ==> s.outputs@.len() <= u32::MAX,
        kind matches NodeKind::ControlSequencer(s) ==> s.lanes@.len() <= u32::MAX,
    ensures
        spec_port_counts(kind).0 == 0 <==> (kind is Oscillator || kind is AudioBufferSource
            || kind is ConstantSource || kind is Noise || kind is MediaElementSource
            || kind is MediaStreamSource || kind is NoteSequencer || kind is ControlSequencer),
        spec_port_counts(kind).1 == 0 <==> (kind is Output || kind is SpatialOutput),
{
}

} // verus!
