//! Structural reasoning-trace halting, vote composition, seeded action
//! mixing, switch and lift counters, and commitment envelopes, with their
//! contracts proved by Verus.

pub mod digest;
pub mod gain_cost_halt;
pub mod similarity_inference;
pub mod spectral_pencil;
pub mod sphere_sampling;
pub mod sterling;
pub mod structural_cot_halt;
pub mod swe_trajectory_freeze;
pub mod switch_cost;
