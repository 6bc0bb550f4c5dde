//! The error surface of the sphere-sampling entry points.

use vstd::prelude::*;

verus! {

/// Errors returned by the sphere-sampling entry points.
#[derive(Debug, Clone, Copy, PartialEq, Eq, Structural)]
pub enum SphereError {
    /// Slice lengths disagree: all buffer lengths must equal the ambient
    /// dimension `d`.
    ShapeMismatch,
    /// Parallel transport is undefined between antipodal points: the
    /// Householder pivot vanishes.
    AntipodalTransport,
    /// The Jacobian log-determinant cotangent diverges.
    CotangentDivergent,
    /// Inputs are not finite (NaN or infinite).
    NonFiniteInput,
}

} // verus!
