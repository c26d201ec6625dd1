use awsm_audio::enums::OscillatorType;
use awsm_audio::ports::{is_sequencer, kind_label, port_counts, seq_index_of, seq_key_at, PortSide};
use awsm_audio::schema::{
    ChannelMergerNode, ChannelSplitterNode, ControlLane, ControlSequencerNode, NodeKind,
    NoteSequencerNode, OscillatorNode, SampleId, SampleRef, SequencerMode, SoundOut,
};

fn notes(mode: SequencerMode, keys: &[&str]) -> NodeKind {
    NodeKind::NoteSequencer(NoteSequencerNode {
        mode,
        outputs: keys.iter().map(|k| SoundOut { key: k.to_string() }).collect(),
    })
}

#[test]
fn sources_sinks_and_processors() {
    let osc = NodeKind::Oscillator(OscillatorNode { oscillator_type: OscillatorType::Sine, harmonic_count: 0 });
    assert_eq!(port_counts(&osc), (0, 1));
    assert_eq!(port_counts(&NodeKind::Noise), (0, 1));
    assert_eq!(port_counts(&NodeKind::Gain), (1, 1));
    assert_eq!(port_counts(&NodeKind::Output), (1, 0));
    assert_eq!(port_counts(&NodeKind::SpatialOutput), (1, 0));
    assert_eq!(port_counts(&NodeKind::Bus), (1, 1));
    assert_eq!(port_counts(&NodeKind::Sample(SampleRef { sample: SampleId(1) })), (1, 1));
}

#[test]
fn splitters_and_mergers_have_at_least_one_port() {
    assert_eq!(port_counts(&NodeKind::ChannelSplitter(ChannelSplitterNode { number_of_outputs: 6 })), (1, 6));
    assert_eq!(port_counts(&NodeKind::ChannelSplitter(ChannelSplitterNode { number_of_outputs: 0 })), (1, 1));
    assert_eq!(port_counts(&NodeKind::ChannelMerger(ChannelMergerNode { number_of_inputs: 0 })), (1, 1));
    assert_eq!(port_counts(&NodeKind::ChannelMerger(ChannelMergerNode { number_of_inputs: 3 })), (3, 1));
}

#[test]
fn sequencers_have_one_output_per_key() {
    assert_eq!(port_counts(&notes(SequencerMode::Melodic, &["a", "b", "c"])), (0, 3));
    assert_eq!(port_counts(&notes(SequencerMode::Drum, &[])), (0, 1));
    let ctl = NodeKind::ControlSequencer(ControlSequencerNode { lanes: vec![ControlLane { key: "x".to_string() }, ControlLane { key: "y".to_string() }] });
    assert_eq!(port_counts(&ctl), (0, 2));
    assert!(is_sequencer(&ctl));
    assert!(is_sequencer(&notes(SequencerMode::Drum, &[])));
    assert!(!is_sequencer(&NodeKind::Gain));
}

#[test]
fn keys_and_indices_are_inverse() {
    let k = notes(SequencerMode::Drum, &["kick", "snare", "hat"]);
    for i in 0..3usize {
        let key = seq_key_at(&k, i).unwrap();
        assert_eq!(seq_index_of(&k, &key), Some(i as u32));
    }
    assert_eq!(seq_key_at(&k, 3), None);
    assert_eq!(seq_index_of(&k, "clap"), None);
    assert_eq!(seq_key_at(&NodeKind::Gain, 0), None);
    assert_eq!(seq_index_of(&NodeKind::Gain, "kick"), None);
    // The first of repeated keys wins.
    let dup = notes(SequencerMode::Melodic, &["a", "b", "a"]);
    assert_eq!(seq_index_of(&dup, "a"), Some(0));
}

#[test]
fn labels() {
    assert_eq!(kind_label(&NodeKind::DynamicsCompressor), "Compressor");
    assert_eq!(kind_label(&NodeKind::AudioBufferSource), "Buffer Source");
    assert_eq!(kind_label(&notes(SequencerMode::Drum, &[])), "Drum Sequencer");
    assert_eq!(kind_label(&notes(SequencerMode::Melodic, &[])), "Melodic Sequencer");
    assert_eq!(kind_label(&NodeKind::ControlSequencer(ControlSequencerNode { lanes: vec![] })), "Control Sequencer");
    assert_ne!(PortSide::In, PortSide::Out);
}
