use awsm_audio::command::CommandKind;
use awsm_audio::context_menu::{items_for, ConnId, ContextTarget, MenuAction};
use awsm_audio::curve::{next_curve, Curve};
use awsm_audio::piano_roll::{
    last_track, melodic_row_label, note_fill, rows, track_label, wheel_velocity, NOTE_MAX, NOTE_MIN,
};
use awsm_audio::enums::{OscillatorType, WaveShaperShape};
use awsm_audio::inspector::{inspector_view, InspectorView, WaveShaperView};
use awsm_audio::schema::{
    ControlSequencerNode, Graph, NodeId, NodeKind, NoteSequencerNode, OscillatorNode, Sample, SampleId,
    SampleKind, SampleLibrary, SampleRef, SequencerMode, WaveShaperNode,
};
use awsm_audio::search::{
    active_name, can_delete, filter_tabs, is_conceptual_query, label_matches, normalize_query, sample_tabs,
    SampleTab,
};

#[test]
fn note_fill_matches_float_formula() {
    for vel in 0..=255u8 {
        let l = 0.42 + 0.42 * (vel.min(127) as f64 / 127.0);
        assert_eq!(note_fill(vel), format!("oklch({l:.2} 0.15 150)"), "velocity {vel}");
    }
    assert_eq!(note_fill(0), "oklch(0.42 0.15 150)");
    assert_eq!(note_fill(127), "oklch(0.84 0.15 150)");
    assert_eq!(note_fill(100), "oklch(0.75 0.15 150)");
}

#[test]
fn piano_roll_rows() {
    assert_eq!(rows(), 49);
    assert_eq!((NOTE_MIN, NOTE_MAX), (36, 84));
}

#[test]
fn curve_cycle() {
    assert_eq!(next_curve(Curve::Step), Curve::Linear);
    assert_eq!(next_curve(Curve::Linear), Curve::Exponential);
    assert_eq!(next_curve(Curve::Exponential), Curve::Smooth);
    assert_eq!(next_curve(Curve::Smooth), Curve::Step);
    for c in [Curve::Step, Curve::Linear, Curve::Exponential, Curve::Smooth] {
        assert_eq!(next_curve(next_curve(next_curve(next_curve(c)))), c);
    }
}

#[test]
fn transient_commands() {
    assert!(CommandKind::MoveNode.is_transient());
    assert!(CommandKind::SetListener.is_transient());
    assert!(CommandKind::Bounce.is_transient());
    assert!(!CommandKind::AddNode.is_transient());
    assert!(!CommandKind::Connect.is_transient());
    assert!(!CommandKind::Paste.is_transient());
}

fn labels(target: ContextTarget, sel: &Vec<(usize, usize)>, looping: bool, clip: bool) -> Vec<String> {
    items_for(target, sel, looping, clip).into_iter().map(|m| m.label).collect()
}

#[test]
fn context_menu_entries() {
    let none = Vec::new();
    assert_eq!(labels(ContextTarget::Node(NodeId(1)), &none, false, false), vec!["Clone", "Delete"]);
    assert_eq!(labels(ContextTarget::Wire(ConnId(3)), &none, false, false), vec!["Delete wire"]);
    assert_eq!(
        labels(ContextTarget::Clip { track: 0, clip: 1 }, &none, true, false),
        vec!["Loop: on", "Copy", "Open source", "Delete clip"]
    );
    let sel = vec![(0, 1), (2, 0), (3, 3)];
    assert_eq!(labels(ContextTarget::Clip { track: 0, clip: 1 }, &sel, true, false), vec!["Copy 3 clips", "Delete 3 clips"]);
    // A clip outside the multi-selection gets its own entries.
    assert_eq!(labels(ContextTarget::Clip { track: 1, clip: 1 }, &sel, false, false)[0], "Loop: off");
    assert_eq!(labels(ContextTarget::Lane { track: 2 }, &none, false, true), vec!["Paste here", "Paste at playhead"]);
    let items = items_for(ContextTarget::Lane { track: 2 }, &none, false, false);
    assert_eq!(items.len(), 1);
    assert_eq!(items[0].label, "Nothing to paste");
    assert!(items[0].action.is_none());
    let toggle = items_for(ContextTarget::Clip { track: 4, clip: 5 }, &none, true, false);
    assert_eq!(toggle[0].action, Some(MenuAction::SetClipLoop { track: 4, clip: 5, looping: false }));
    assert_eq!(labels(ContextTarget::Sound(SampleId(2)), &none, false, false), vec!["Go to", "Place at playhead"]);
    assert_eq!(labels(ContextTarget::SampleTab(SampleId(2)), &none, false, false), vec!["Clone"]);
}

#[test]
fn palette_query_matching() {
    let q = normalize_query("  OSC ");
    assert_eq!(q, "osc");
    assert!(label_matches(&q, "Oscillator"));
    assert!(!label_matches(&q, "Gain"));
    assert!(label_matches("", "Gain"));
    assert!(label_matches(&normalize_query("Wave S"), "Wave Shaper"));
}

#[test]
fn conceptual_queries() {
    assert!(is_conceptual_query(&normalize_query("Macro knobs")));
    assert!(is_conceptual_query("modulation"));
    assert!(is_conceptual_query("cc"));
    assert!(!is_conceptual_query("gain"));
    assert!(!is_conceptual_query(""));
}

#[test]
fn sample_picker_filter() {
    let tab = |id: u64, name: &str| SampleTab {
        id: SampleId(id),
        name: name.to_string(),
        kind: SampleKind::Sound,
        is_root: id == 1,
        is_active: id == 2,
    };
    let tabs = vec![tab(1, "Kick"), tab(2, "Snare"), tab(3, "Kick Deep")];
    let kept: Vec<u64> = filter_tabs(&normalize_query(" kick"), tabs.clone()).iter().map(|t| t.id.0).collect();
    assert_eq!(kept, vec![1, 3]);
    assert_eq!(filter_tabs("", tabs.clone()).len(), 3);
    assert!(filter_tabs("hat", tabs).is_empty());
}

#[test]
fn melodic_gutter_labels() {
    assert_eq!(melodic_row_label(0).as_deref(), Some("C6"));
    assert_eq!(melodic_row_label(12).as_deref(), Some("C5"));
    assert_eq!(melodic_row_label(24).as_deref(), Some("C4"));
    assert_eq!(melodic_row_label(48).as_deref(), Some("C2"));
    assert_eq!(melodic_row_label(1), None);
    let labelled = (0..rows()).filter(|&r| melodic_row_label(r).is_some()).count();
    assert_eq!(labelled, 5);
}

#[test]
fn wheel_adjusts_velocity_within_range() {
    assert_eq!(wheel_velocity(100, true), 108);
    assert_eq!(wheel_velocity(100, false), 92);
    assert_eq!(wheel_velocity(125, true), 127);
    assert_eq!(wheel_velocity(5, false), 1);
    assert_eq!(wheel_velocity(200, false), 127);
    assert_eq!(wheel_velocity(0, true), 8);
}

#[test]
fn picker_button_label() {
    let tab = |id: u64, name: &str, active: bool| SampleTab {
        id: SampleId(id),
        name: name.to_string(),
        kind: SampleKind::Sound,
        is_root: false,
        is_active: active,
    };
    assert_eq!(active_name(&vec![tab(1, "Kick", false), tab(2, "Snare", true)]), "Snare");
    assert_eq!(active_name(&vec![tab(1, "Kick", false)]), "\u{2014}");
    assert!(!can_delete(&vec![tab(1, "Kick", true)]));
    assert!(can_delete(&vec![tab(1, "Kick", true), tab(2, "Hat", false)]));
}

#[test]
fn louder_notes_are_never_darker() {
    let lightness = |v: u8| note_fill(v)[8..10].parse::<u32>().unwrap();
    for v in 0..255u8 {
        assert!(lightness(v) <= lightness(v + 1), "velocity {v}");
    }
}

fn empty_sample(id: u64, name: &str, kind: SampleKind) -> Sample {
    Sample {
        id: SampleId(id),
        name: name.to_string(),
        kind,
        graph: Graph { nodes: Vec::new(), connections: Vec::new(), inlets: Vec::new(), outlets: Vec::new() },
    }
}

#[test]
fn sample_tabs_flag_root_and_active() {
    let lib = SampleLibrary {
        samples: vec![
            empty_sample(4, "Kick", SampleKind::Sound),
            empty_sample(9, "Song", SampleKind::Arrangement),
            empty_sample(2, "Hat", SampleKind::Sound),
        ],
        root: Some(SampleId(9)),
    };
    let tabs = sample_tabs(&lib, Some(SampleId(2)));
    let rows: Vec<(u64, &str, SampleKind, bool, bool)> =
        tabs.iter().map(|t| (t.id.0, t.name.as_str(), t.kind, t.is_root, t.is_active)).collect();
    assert_eq!(
        rows,
        vec![
            (4, "Kick", SampleKind::Sound, false, false),
            (9, "Song", SampleKind::Arrangement, true, false),
            (2, "Hat", SampleKind::Sound, false, true),
        ]
    );
    let none = sample_tabs(&SampleLibrary { samples: lib.samples.clone(), root: None }, None);
    assert!(none.iter().all(|t| !t.is_root && !t.is_active));
    assert_eq!(none.len(), 3);
}

#[test]
fn normalize_trims_unicode_white_space() {
    assert_eq!(normalize_query("\u{3000}Gain\u{2003} \n"), "gain");
    assert_eq!(normalize_query("\u{a0}\u{85}\t"), "");
    assert_eq!(normalize_query("  Low Pass  "), "low pass");
}

#[test]
fn inspector_picks_panel_by_boundary_then_kind() {
    let params = |h: bool, w: WaveShaperView, iir: bool, scope: bool| InspectorView::Params {
        harmonics_editor: h,
        wave_shaper: w,
        iir_designer: iir,
        analyser_scope: scope,
    };
    let sref = NodeKind::Sample(SampleRef { sample: SampleId(5) });
    assert_eq!(inspector_view(&sref, Some(true)), InspectorView::Boundary { inlet: true });
    assert_eq!(inspector_view(&NodeKind::Gain, Some(false)), InspectorView::Boundary { inlet: false });
    assert_eq!(inspector_view(&sref, None), InspectorView::SampleInputs { sample: SampleId(5) });
    let seq = NodeKind::NoteSequencer(NoteSequencerNode { mode: SequencerMode::Drum, outputs: Vec::new() });
    assert_eq!(inspector_view(&seq, None), InspectorView::NoteSequencer);
    let ctl = NodeKind::ControlSequencer(ControlSequencerNode { lanes: Vec::new() });
    assert_eq!(inspector_view(&ctl, None), InspectorView::ControlSequencer);

    let custom = NodeKind::Oscillator(OscillatorNode { oscillator_type: OscillatorType::Custom, harmonic_count: 0 });
    assert_eq!(inspector_view(&custom, None), params(true, WaveShaperView::Hidden, false, false));
    let sine = NodeKind::Oscillator(OscillatorNode { oscillator_type: OscillatorType::Sine, harmonic_count: 3 });
    assert_eq!(inspector_view(&sine, None), params(false, WaveShaperView::Hidden, false, false));
    let drawn = NodeKind::WaveShaper(WaveShaperNode { shape: WaveShaperShape::Custom });
    assert_eq!(inspector_view(&drawn, None), params(false, WaveShaperView::DrawableCurve, false, false));
    let fold = NodeKind::WaveShaper(WaveShaperNode { shape: WaveShaperShape::Fold });
    assert_eq!(
        inspector_view(&fold, None),
        params(false, WaveShaperView::Preview(WaveShaperShape::Fold), false, false)
    );
    assert_eq!(inspector_view(&NodeKind::IirFilter, None), params(false, WaveShaperView::Hidden, true, false));
    assert_eq!(inspector_view(&NodeKind::Analyser, None), params(false, WaveShaperView::Hidden, false, true));
    assert_eq!(inspector_view(&NodeKind::Gain, None), params(false, WaveShaperView::Hidden, false, false));
}

#[test]
fn unnamed_tracks_are_numbered_from_one() {
    assert_eq!(track_label("", 0), "track 1");
    assert_eq!(track_label("", 11), "track 12");
    assert_eq!(track_label("Bass", 3), "Bass");
}

#[test]
fn adding_a_track_switches_to_the_last() {
    assert_eq!(last_track(3), 2);
    assert_eq!(last_track(1), 0);
    assert_eq!(last_track(0), 0);
}
