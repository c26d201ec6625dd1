//! The fixed WebAudio enumerations. Each variant corresponds to one of the
//! platform's string values; the player maps a variant straight onto the
//! matching platform enum.

use vstd::prelude::*;

verus! {

/// `OscillatorNode.type`.
#[derive(Debug, Clone, Copy, PartialEq, Eq, Structural)]
pub enum OscillatorType {
    Sine,
    Square,
    Sawtooth,
    Triangle,
    /// Driven by a periodic wave (harmonic amplitudes) stored on the node.
    Custom,
}

impl Default for OscillatorType {
    fn default() -> (r: Self)
        ensures
            r == OscillatorType::Sine,
    {
        OscillatorType::Sine
    }
}

/// `BiquadFilterNode.type`.
#[derive(Debug, Clone, Copy, PartialEq, Eq, Structural)]
pub enum BiquadFilterType {
    Lowpass,
    Highpass,
    Bandpass,
    Lowshelf,
    Highshelf,
    Peaking,
    Notch,
    Allpass,
}

impl Default for BiquadFilterType {
    fn default() -> (r: Self)
        ensures
            r == BiquadFilterType::Lowpass,
    {
        BiquadFilterType::Lowpass
    }
}

/// `WaveShaperNode.oversample`.
#[derive(Debug, Clone, Copy, PartialEq, Eq, Structural)]
pub enum OverSampleType {
    Off,
    X2,
    X4,
}

impl Default for OverSampleType {
    fn default() -> (r: Self)
        ensures
            r == OverSampleType::Off,
    {
        OverSampleType::Off
    }
}

/// The distortion character of a wave shaper; the player generates the
/// shaping curve from this and the node's intensity.
#[derive(Debug, Clone, Copy, PartialEq, Eq, Structural)]
pub enum WaveShaperShape {
    /// Smooth `tanh` saturation (warm overdrive).
    Tanh,
    /// Hard clipping (aggressive, square-ish).
    HardClip,
    /// Sine wavefolder (metallic, folds more as the intensity rises).
    Fold,
    /// A user-drawn transfer curve; the intensity is ignored.
    Custom,
}

impl Default for WaveShaperShape {
    fn default() -> (r: Self)
        ensures
            r == WaveShaperShape::Tanh,
    {
        WaveShaperShape::Tanh
    }
}

/// `PannerNode.panningModel`.
#[derive(Debug, Clone, Copy, PartialEq, Eq, Structural)]
pub enum PanningModelType {
    EqualPower,
    Hrtf,
}

impl Default for PanningModelType {
    fn default() -> (r: Self)
        ensures
            r == PanningModelType::EqualPower,
    {
        PanningModelType::EqualPower
    }
}

/// `PannerNode.distanceModel`.
#[derive(Debug, Clone, Copy, PartialEq, Eq, Structural)]
pub enum DistanceModelType {
    Linear,
    Inverse,
    Exponential,
}

impl Default for DistanceModelType {
    fn default() -> (r: Self)
        ensures
            r == DistanceModelType::Inverse,
    {
        DistanceModelType::Inverse
    }
}

/// `AudioNode.channelCountMode`.
#[derive(Debug, Clone, Copy, PartialEq, Eq, Structural)]
pub enum ChannelCountMode {
    Max,
    ClampedMax,
    Explicit,
}

impl Default for ChannelCountMode {
    fn default() -> (r: Self)
        ensures
            r == ChannelCountMode::Max,
    {
        ChannelCountMode::Max
    }
}

/// `AudioNode.channelInterpretation`.
#[derive(Debug, Clone, Copy, PartialEq, Eq, Structural)]
pub enum ChannelInterpretation {
    Speakers,
    Discrete,
}

impl Default for ChannelInterpretation {
    fn default() -> (r: Self)
        ensures
            r == ChannelInterpretation::Speakers,
    {
        ChannelInterpretation::Speakers
    }
}

/// Spectral character of a noise source. Not a WebAudio enum: these select
/// how the player synthesizes the noise buffer.
#[derive(Debug, Clone, Copy, PartialEq, Eq, Structural)]
pub enum NoiseFlavor {
    /// Flat spectrum: bright hiss.
    White,
    /// -3 dB/oct: balanced, natural.
    Pink,
    /// -6 dB/oct: deep rumble.
    Brown,
    /// +3 dB/oct: airy, bright.
    Blue,
    /// +6 dB/oct: very bright.
    Violet,
    /// Sparse random impulses at a given density.
    Dust,
    /// Sparse signed impulses, one per grid window.
    Velvet,
}

impl Default for NoiseFlavor {
    fn default() -> (r: Self)
        ensures
            r == NoiseFlavor::White,
    {
        NoiseFlavor::White
    }
}

/// `AudioParam.automationRate`.
#[derive(Debug, Clone, Copy, PartialEq, Eq, Structural)]
pub enum AutomationRate {
    ARate,
    KRate,
}

} // verus!
