//! What the inspector shows for the selected node: a boundary port's own
//! panel, a sample reference's inputs, the sequencers' editors, or the
//! parameter list with the extras that belong to the node's kind.

use vstd::prelude::*;

use crate::enums::{OscillatorType, WaveShaperShape};
use crate::schema::{NodeKind, SampleId};

verus! {

/// The transfer-curve panel of a wave shaper.
#[derive(Debug, Clone, Copy, PartialEq, Eq, Structural)]
pub enum WaveShaperView {
    /// The node is no wave shaper: no curve panel.
    Hidden,
    /// A custom shape: the curve is drawn by hand.
    DrawableCurve,
    /// A generated shape: a read-only preview of its curve.
    Preview(WaveShaperShape),
}

/// The panel the inspector shows for a node.
#[derive(Debug, Clone, Copy, PartialEq, Eq, Structural)]
pub enum InspectorView {
    /// A boundary port (an inlet when `inlet`, else an outlet): its name, and
    /// for an inlet its value.
    Boundary { inlet: bool },
    /// A sample reference: per-instance values for the target's inputs.
    SampleInputs { sample: SampleId },
    /// The note sequencer's song editor.
    NoteSequencer,
    /// The control sequencer's lane editor.
    ControlSequencer,
    /// The automatable parameters, followed by the extras of the node kind.
    Params {
        harmonics_editor: bool,
        wave_shaper: WaveShaperView,
        iir_designer: bool,
        analyser_scope: bool,
    },
}

/// Whether `kind` is an oscillator with a custom (harmonics-drawn) waveform.
pub open spec fn is_custom_oscillator(kind: NodeKind) -> bool {
    kind matches NodeKind::Oscillator(o) && o.oscillator_type == OscillatorType::Custom
}

/// The wave-shaper panel of `kind`.
pub open spec fn spec_wave_shaper_view(kind: NodeKind) -> WaveShaperView {
    match kind {
        NodeKind::WaveShaper(w) => if w.shape == WaveShaperShape::Custom {
            WaveShaperView::DrawableCurve
        } else {
            WaveShaperView::Preview(w.shape)
        },
        _ => WaveShaperView::Hidden,
    }
}

/// The panel for a node of kind `kind`; `boundary` is `Some(true)` for a
/// graph inlet, `Some(false)` for an outlet, and `None` for an ordinary node.
/// A boundary port wins over the kind; then a sample reference, then the
/// two sequencers; every other kind gets its parameters, with a harmonics
/// editor for a custom oscillator, a curve panel for a wave shaper, a
/// designer for an IIR filter and a scope for an analyser.
pub open spec fn spec_inspector_view(kind: NodeKind, boundary: Option<bool>) -> InspectorView {
    match boundary {
        Some(inlet) => InspectorView::Boundary { inlet },
        None => match kind {
            NodeKind::Sample(r) => InspectorView::SampleInputs { sample: r.sample },
            NodeKind::NoteSequencer(_) => InspectorView::NoteSequencer,
            NodeKind::ControlSequencer(_) => InspectorView::ControlSequencer,
            _ => InspectorView::Params {
                harmonics_editor: is_custom_oscillator(kind),
                wave_shaper: spec_wave_shaper_view(kind),
                iir_designer: kind is IirFilter,
                analyser_scope: kind is Analyser,
            },
        },
    }
}

/// The wave-shaper panel of `kind`.
fn wave_shaper_view(kind: &NodeKind) -> (r: WaveShaperView)
    ensures
        r == spec_wave_shaper_view(*kind),
{
    match kind {
        NodeKind::WaveShaper(w) => match w.shape {
            WaveShaperShape::Custom => WaveShaperView::DrawableCurve,
            shape => WaveShaperView::Preview(shape),
        },
        _ => WaveShaperView::Hidden,
    }
}

/// The panel the inspector shows for a node of kind `kind` (`boundary`:
/// `Some(true)` for an inlet, `Some(false)` for an outlet, `None` otherwise).
pub fn inspector_view(kind: &NodeKind, boundary: Option<bool>) -> (r: InspectorView)
    ensures
        r == spec_inspector_view(*kind, boundary),
{
    if let Some(inlet) = boundary {
        return InspectorView::Boundary { inlet };
    }
    match kind {
        NodeKind::Sample(r) => InspectorView::SampleInputs { sample: r.sample },
        NodeKind::NoteSequencer(_) => InspectorView::NoteSequencer,
        NodeKind::ControlSequencer(_) => InspectorView::ControlSequencer,
        _ => {
            let harmonics_editor = match kind {
                NodeKind::Oscillator(o) => o.oscillator_type == OscillatorType::Custom,
                _ => false,
            };
            let iir_designer = match kind {
                NodeKind::IirFilter => true,
                _ => false,
            };
            let analyser_scope = match kind {
                NodeKind::Analyser => true,
                _ => false,
            };
            InspectorView::Params {
                harmonics_editor,
                wave_shaper: wave_shaper_view(kind),
                iir_designer,
                analyser_scope,
            }
        },
    }
}

} // verus!
