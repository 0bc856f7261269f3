//! Failures of aggregation and decryption.
use vstd::prelude::*;

verus! {

/// Why an aggregation or a decryption failed.
#[derive(Clone, Copy, Debug, PartialEq, Eq, Structural)]
pub enum TpreError {
    /// Two key slivers disagree on their shared values.
    InconsistentShares,
    /// Two capsule fragments carry the same shared value.
    DegenerateShares,
    /// The recipient's secret key is zero.
    InvalidKey,
    /// No key slivers, or no capsule fragments, were given.
    EmptyInput,
}

} // verus!
