//! The shape of a control-lane segment, and the editor's cycle through the
//! shapes.

use vstd::prelude::*;

verus! {

/// How a control lane moves from the previous point to this one.
#[derive(Debug, Clone, Copy, PartialEq, Eq, Structural)]
pub enum Curve {
    /// Hold the previous value, then jump.
    Step,
    /// A straight ramp.
    Linear,
    /// An exponential ramp.
    Exponential,
    /// A smoothstep ease.
    Smooth,
}

/// The shape after `c` in the editor's cycle.
pub open spec fn spec_next_curve(c: Curve) -> Curve {
    match c {
        Curve::Step => Curve::Linear,
        Curve::Linear => Curve::Exponential,
        Curve::Exponential => Curve::Smooth,
        Curve::Smooth => Curve::Step,
    }
}

/// Cycle a point's curve shape: step, linear, exponential, smooth, step.
pub fn next_curve(c: Curve) -> (r: Curve)
    ensures
        r == spec_next_curve(c),
{
    match c {
        Curve::Step => Curve::Linear,
        Curve::Linear => Curve::Exponential,
        Curve::Exponential => Curve::Smooth,
        Curve::Smooth => Curve::Step,
    }
}

/// Cycling visits every shape once and returns after four steps: each of
/// the first three steps gives a different shape, and the fourth gives the
/// starting shape back.
pub proof fn lemma_next_curve_cycles(c: Curve)
    ensures
        spec_next_curve(c) != c,
        spec_next_curve(spec_next_curve(c)) != c,
        spec_next_curve(spec_next_curve(spec_next_curve(c))) != c,
        spec_next_curve(spec_next_curve(c)) != spec_next_curve(c),
        spec_next_curve(spec_next_curve(spec_next_curve(c))) != spec_next_curve(c),
        spec_next_curve(spec_next_curve(spec_next_curve(c))) != spec_next_curve(spec_next_curve(c)),
        spec_next_curve(spec_next_curve(spec_next_curve(spec_next_curve(c)))) == c,
{
}

} // verus!
