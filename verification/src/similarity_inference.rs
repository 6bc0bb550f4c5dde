//! Integer core of the similarity-inference primitive: the error type and
//! the deterministic policy mixer that drives seeded agents.

use vstd::prelude::*;

verus! {

/// Errors raised by the similarity-inference primitive.
#[derive(Debug, Clone, PartialEq, Eq)]
pub enum SimilarityError {
    /// `prior_alpha` outside `(0, 1)`; `given` carries the raw bits of the
    /// rejected value.
    InvalidPriorAlpha { given: u32 },
    /// `n_actions` is zero: a game with zero actions is ill-defined.
    EmptyActionSet,
    /// Payoff-matrix shape mismatch: the supplied matrix is not `A × A`.
    PayoffShapeMismatch { expected: usize, got: usize },
    /// Partner-marginal length mismatch (expected `A`, got otherwise).
    MarginalShapeMismatch { expected: usize, got: usize },
}

/// The additive constant of the mixer (the 64-bit golden-ratio increment).
pub const MIX_INCREMENT: u64 = 0x9E37_79B9_7F4A_7C15;

/// First multiplicative constant of the finalizer.
pub const MIX_MUL_1: u64 = 0xBF58_476D_1CE4_E5B9;

/// Second multiplicative constant of the finalizer.
pub const MIX_MUL_2: u64 = 0x94D0_49BB_1331_11EB;

/// Multiplication modulo 2^64.
pub open spec fn wmul(x: u64, y: u64) -> u64 {
    vstd::wrapping::u64_specs::wrapping_mul(x, y)
}

/// Addition modulo 2^64.
pub open spec fn wadd(x: u64, y: u64) -> u64 {
    vstd::wrapping::u64_specs::wrapping_add(x, y)
}

/// The xorshift-multiply mixing function, stated step by step over 64-bit
/// modular arithmetic.
pub open spec fn spec_mix(a: u64, b: u64) -> u64 {
    let x0 = wmul(wadd(a, MIX_INCREMENT), b);
    let x1 = x0 ^ (x0 >> 30u64);
    let x2 = wmul(x1, MIX_MUL_1);
    let x3 = x2 ^ (x2 >> 27u64);
    let x4 = wmul(x3, MIX_MUL_2);
    x4 ^ (x4 >> 31u64)
}

/// Deterministic mixing function: same inputs, same output.
pub fn mix(a: u64, b: u64) -> (r: u64)
    ensures
        r == spec_mix(a, b),
{
    let mut x = a.wrapping_add(MIX_INCREMENT).wrapping_mul(b);
    x ^= x >> 30;
    x = x.wrapping_mul(MIX_MUL_1);
    x ^= x >> 27;
    x = x.wrapping_mul(MIX_MUL_2);
    x ^= x >> 31;
    x
}

/// The action a seeded policy picks in a situation: the mixed seed pair
/// reduced modulo the action count, truncated to a byte.
pub open spec fn spec_act_with_seed(policy_seed: u64, situation_seed: u64, n_actions: usize) -> u8 {
    (spec_mix(policy_seed, situation_seed) % (n_actions as u64)) as u8
}

/// Pick an action for `situation_seed` under the deterministic policy
/// seeded by `policy_seed`. Two agents that share a policy seed pick the
/// same action in every situation.
pub fn act_with_seed(policy_seed: u64, situation_seed: u64, n_actions: usize) -> (r: u8)
    requires
        n_actions > 0,
    ensures
        r == spec_act_with_seed(policy_seed, situation_seed, n_actions),
        n_actions <= 256 ==> (r as int) == (spec_mix(policy_seed, situation_seed) as int) % (n_actions as int),
        n_actions <= 256 ==> (r as usize) < n_actions,
{
    let mixed = mix(policy_seed, situation_seed);
    (mixed % n_actions as u64) as u8
}

} // verus!
