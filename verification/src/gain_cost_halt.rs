//! The decision surface of the numeric (gain/cost) halt family, as seen by
//! the structural vote composer.

use vstd::prelude::*;

verus! {

/// Why the numeric arbiter halted.
#[derive(Clone, Copy, Debug, PartialEq, Eq, Structural)]
pub enum HaltReason {
    /// The tracked score oscillates instead of improving.
    Oscillation,
}

/// One numeric-family decision for one step.
#[derive(Clone, Copy, Debug, PartialEq, Eq, Structural)]
pub enum HaltDecision {
    /// Keep going.
    Continue,
    /// Halt now, for the given reason.
    Halt { reason: HaltReason },
    /// The arbiter refused to decide: the representation is below its floor.
    RefusedFloor,
}

} // verus!
