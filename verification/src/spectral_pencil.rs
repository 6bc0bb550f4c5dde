//! Integer helpers of the spectral pencil gate: the canonical eigenvalue
//! index choices and the packed length of a symmetric matrix.

use vstd::prelude::*;

verus! {

/// The canonical k-index choices (pessimist to optimist).
#[derive(Clone, Copy, Debug, PartialEq, Eq, Structural)]
pub enum Temperament {
    /// k = 1: λmin, concave, any-direction veto.
    Pessimist,
    /// Interior k: unrestricted shape, the most expressive.
    Pragmatist,
    /// k = D: λmax, convex, any-direction boost.
    Optimist,
}

impl Temperament {
    /// Resolve to a 0-indexed k for dimension `d`: `0`, `d / 2` or `d - 1`.
    /// The optimist index needs `d >= 1`.
    pub fn k_of(self, d: usize) -> (k: usize)
        requires
            self == Temperament::Optimist ==> d >= 1,
        ensures
            k == match self {
                Temperament::Pessimist => 0,
                Temperament::Pragmatist => d / 2,
                Temperament::Optimist => (d - 1) as usize,
            },
            d >= 1 ==> k < d,
    {
        match self {
            Temperament::Pessimist => 0,
            Temperament::Pragmatist => d / 2,
            Temperament::Optimist => d - 1,
        }
    }
}

/// Logical parameter-vector length `d(d+1)/2` of a symmetric `d×d` matrix
/// (its upper triangle, diagonal included).
pub fn packed_len(d: usize) -> (n: usize)
    requires
        d * (d + 1) <= usize::MAX,
    ensures
        n == d * (d + 1) / 2,
{
    assert(d + 1 <= usize::MAX) by (nonlinear_arith)
        requires
            d * (d + 1) <= usize::MAX,
    ;
    d * (d + 1) / 2
}

} // verus!
