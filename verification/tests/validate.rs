use awsm_audio::enums::OscillatorType;
use awsm_audio::schema::{
    ChannelSplitterNode, Connection, ConnectionSink, ConnectionSource, ControlLane,
    ControlSequencerNode, Graph, Node, NodeId, NodeKind, OscillatorNode, ParamId, Port, PortId,
    Sample, SampleId, SampleKind, SampleLibrary, SampleRef,
};
use awsm_audio::validate::SchemaError;

fn graph(nodes: Vec<Node>, connections: Vec<Connection>) -> Graph {
    Graph { nodes, connections, inlets: Vec::new(), outlets: Vec::new() }
}

fn sample(id: u64, g: Graph) -> Sample {
    Sample { id: SampleId(id), name: format!("s{id}"), kind: SampleKind::Sound, graph: g }
}

fn node(id: u64, kind: NodeKind) -> Node {
    Node { id: NodeId(id), kind }
}

fn sref(target: u64) -> NodeKind {
    NodeKind::Sample(SampleRef { sample: SampleId(target) })
}

fn wire(from: u64, to: u64) -> Connection {
    Connection {
        from: ConnectionSource::NodeOutput { node: NodeId(from), output: 0 },
        to: ConnectionSink::NodeInput { node: NodeId(to), input: 0 },
    }
}

#[test]
fn empty_library_is_valid() {
    let lib = SampleLibrary { samples: Vec::new(), root: None };
    assert!(lib.validate().is_empty());
}

#[test]
fn well_formed_library_is_valid() {
    let a = sample(1, graph(vec![node(10, NodeKind::Gain), node(11, sref(2)), node(12, NodeKind::Output)], vec![wire(11, 10), wire(10, 12)]));
    let b = sample(2, graph(vec![node(20, NodeKind::Noise), node(21, NodeKind::Output)], vec![wire(20, 21)]));
    let lib = SampleLibrary { samples: vec![a, b], root: Some(SampleId(1)) };
    assert_eq!(lib.validate(), Vec::<SchemaError>::new());
}

#[test]
fn unknown_root_is_reported_first() {
    let a = sample(1, graph(vec![node(10, NodeKind::Gain)], vec![wire(99, 10)]));
    let lib = SampleLibrary { samples: vec![a], root: Some(SampleId(7)) };
    assert_eq!(
        lib.validate(),
        vec![
            SchemaError::UnknownRoot(SampleId(7)),
            SchemaError::UnknownNode { sample: SampleId(1), node: NodeId(99) },
        ]
    );
}

#[test]
fn dangling_wire_endpoints_are_reported() {
    let conns = vec![
        Connection {
            from: ConnectionSource::Inlet { port: PortId("in".to_string()) },
            to: ConnectionSink::Outlet { port: PortId("out".to_string()) },
        },
        Connection {
            from: ConnectionSource::NodeOutput { node: NodeId(1), output: 0 },
            to: ConnectionSink::NodeParam { node: NodeId(5), param: ParamId("gain".to_string()) },
        },
    ];
    let g = graph(vec![node(1, NodeKind::Oscillator(OscillatorNode { oscillator_type: OscillatorType::Sine, harmonic_count: 0 }))], conns);
    let lib = SampleLibrary { samples: vec![sample(3, g)], root: None };
    assert_eq!(
        lib.validate(),
        vec![
            SchemaError::UnknownInlet { sample: SampleId(3), port: PortId("in".to_string()) },
            SchemaError::UnknownOutlet { sample: SampleId(3), port: PortId("out".to_string()) },
            SchemaError::UnknownNode { sample: SampleId(3), node: NodeId(5) },
        ]
    );
}

#[test]
fn declared_boundary_ports_resolve() {
    let mut g = graph(vec![], vec![Connection {
        from: ConnectionSource::Inlet { port: PortId("in".to_string()) },
        to: ConnectionSink::Outlet { port: PortId("out".to_string()) },
    }]);
    g.inlets.push(Port { id: PortId("in".to_string()) });
    g.outlets.push(Port { id: PortId("out".to_string()) });
    let lib = SampleLibrary { samples: vec![sample(3, g)], root: None };
    assert!(lib.validate().is_empty());
}

#[test]
fn control_lane_into_trigger_is_incompatible() {
    let seq = NodeKind::ControlSequencer(ControlSequencerNode { lanes: vec![ControlLane { key: "cut".to_string() }] });
    let g = graph(vec![node(1, seq), node(2, sref(4))], vec![
        Connection {
            from: ConnectionSource::SeqOut { node: NodeId(1), key: "cut".to_string() },
            to: ConnectionSink::Trigger { node: NodeId(2) },
        },
        Connection {
            from: ConnectionSource::SeqOut { node: NodeId(1), key: "cut".to_string() },
            to: ConnectionSink::NodeParam { node: NodeId(2), param: ParamId("x".to_string()) },
        },
    ]);
    let lib = SampleLibrary { samples: vec![sample(3, g), sample(4, graph(vec![], vec![]))], root: None };
    assert_eq!(lib.validate(), vec![SchemaError::IncompatibleWire { sample: SampleId(3) }]);
}

#[test]
fn custom_oscillator_needs_harmonics() {
    let custom = |n| NodeKind::Oscillator(OscillatorNode { oscillator_type: OscillatorType::Custom, harmonic_count: n });
    let g = graph(vec![node(1, custom(0)), node(2, custom(3))], vec![]);
    let lib = SampleLibrary { samples: vec![sample(8, g)], root: None };
    assert_eq!(lib.validate(), vec![SchemaError::MissingPeriodicWave { sample: SampleId(8), node: NodeId(1) }]);
}

#[test]
fn unknown_sample_reference_is_reported() {
    let g = graph(vec![node(1, sref(42))], vec![]);
    let lib = SampleLibrary { samples: vec![sample(8, g)], root: Some(SampleId(8)) };
    assert_eq!(lib.validate(), vec![SchemaError::UnknownSampleRef { sample: SampleId(8), target: SampleId(42) }]);
}

#[test]
fn reference_cycle_is_reported() {
    let a = sample(1, graph(vec![node(10, sref(2))], vec![]));
    let b = sample(2, graph(vec![node(20, sref(1))], vec![]));
    let lib = SampleLibrary { samples: vec![a, b], root: Some(SampleId(1)) };
    assert_eq!(lib.validate(), vec![SchemaError::SampleCycle { sample: SampleId(1) }]);
}

#[test]
fn self_reference_is_a_cycle() {
    let a = sample(5, graph(vec![node(10, sref(5))], vec![]));
    let lib = SampleLibrary { samples: vec![a], root: None };
    assert_eq!(lib.validate(), vec![SchemaError::SampleCycle { sample: SampleId(5) }]);
}

#[test]
fn shared_sub_sample_is_not_a_cycle() {
    // 1 embeds 2 and 3; both embed 4: a diamond, not a cycle.
    let s1 = sample(1, graph(vec![node(1, sref(2)), node(2, sref(3))], vec![]));
    let s2 = sample(2, graph(vec![node(1, sref(4))], vec![]));
    let s3 = sample(3, graph(vec![node(1, sref(4))], vec![]));
    let s4 = sample(4, graph(vec![node(1, NodeKind::Noise)], vec![]));
    let lib = SampleLibrary { samples: vec![s1, s2, s3, s4], root: Some(SampleId(1)) };
    assert!(lib.validate().is_empty());
}

#[test]
fn cycle_reached_from_a_later_sample() {
    // 1 is fine; 2 -> 3 -> 4 -> 2 is a cycle first entered from 2.
    let s1 = sample(1, graph(vec![node(1, NodeKind::ChannelSplitter(ChannelSplitterNode { number_of_outputs: 2 }))], vec![]));
    let s2 = sample(2, graph(vec![node(1, sref(3))], vec![]));
    let s3 = sample(3, graph(vec![node(1, sref(4))], vec![]));
    let s4 = sample(4, graph(vec![node(1, sref(2))], vec![]));
    let lib = SampleLibrary { samples: vec![s1, s2, s3, s4], root: None };
    assert_eq!(lib.validate(), vec![SchemaError::SampleCycle { sample: SampleId(2) }]);
}

#[test]
fn lookup_finds_first_sample() {
    let lib = SampleLibrary { samples: vec![sample(1, graph(vec![], vec![])), sample(2, graph(vec![node(9, NodeKind::Bus)], vec![]))], root: None };
    assert_eq!(lib.sample(SampleId(2)).map(|s| s.graph.nodes.len()), Some(1));
    assert!(lib.sample(SampleId(3)).is_none());
}

#[test]
fn dangling_sequencer_and_trigger_endpoints_are_reported() {
    let w = Connection {
        from: ConnectionSource::SeqOut { node: NodeId(7), key: "kick".to_string() },
        to: ConnectionSink::Trigger { node: NodeId(8) },
    };
    let lib = SampleLibrary { samples: vec![sample(1, graph(vec![], vec![w]))], root: None };
    assert_eq!(
        lib.validate(),
        vec![
            SchemaError::UnknownNode { sample: SampleId(1), node: NodeId(7) },
            SchemaError::UnknownNode { sample: SampleId(1), node: NodeId(8) },
        ]
    );
}
