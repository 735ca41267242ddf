//! Configuration values and the error taxonomy of the engine.

use vstd::prelude::*;

verus! {

/// The ink limit: a bound on the sum of the blend fractions of a candidate
/// mixture.
///
/// With `resolution` evenly spaced fraction values per primary, each fraction
/// is `numerator / denominator` with the shared denominator
/// `resolution - 1` (or 1 when the resolution is 1). A real-valued limit `L`
/// therefore admits a combination exactly when the sum of its fraction
/// numerators is at most `floor(L * denominator)`; the caller supplies that
/// scaled integer bound. `Unbounded` applies no restriction.
#[derive(Clone, Copy, Debug, PartialEq, Eq, Structural)]
pub enum InkLimit {
    /// No restriction on the fraction sum.
    Unbounded,
    /// The largest admitted sum of fraction numerators.
    Scaled(u64),
}

impl InkLimit {
    /// Whether a combination whose fraction numerators add up to `total` is
    /// admitted.
    pub open spec fn admits(self, total: int) -> bool {
        match self {
            InkLimit::Unbounded => true,
            InkLimit::Scaled(s) => total <= s,
        }
    }

    /// Runtime test of [`InkLimit::admits`].
    pub fn admits_exec(&self, total: u128) -> (b: bool)
        ensures
            b == self.admits(total as int),
    {
        match self {
            InkLimit::Unbounded => true,
            InkLimit::Scaled(s) => total <= *s as u128,
        }
    }
}

/// The fatal conditions the engine detects. All of them are found during
/// setup, before any grid mapping starts; no partial result is produced.
#[derive(Clone, Copy, Debug, PartialEq, Eq, Structural)]
pub enum SeparationError {
    /// No primary colors were supplied.
    NoPrimaries,
    /// The candidate space (resolution to the power of the primary count) is
    /// too large to enumerate on this machine.
    CandidateCountOverflow,
    /// The ink limit pruned every combination: no candidate survives, so no
    /// nearest-neighbor lookup could ever succeed.
    EmptyCandidateSet,
    /// A candidate color lies outside the coordinate range the spatial index
    /// accepts.
    ColorOutOfRange,
    /// The candidates handed to the grid mapper do not fit the primaries:
    /// some candidate carries a different number of blend fractions than
    /// there are primaries, or a fraction outside the unit range.
    PrimaryCountMismatch,
}

} // verus!
