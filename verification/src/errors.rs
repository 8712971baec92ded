//! Failure taxonomy of the core.

use vstd::prelude::*;

verus! {

/// Every failure the core surfaces.  Learner-level numeric failures carry a
/// message; a failed terminal evaluation is a bare marker, substituted or
/// propagated by the caller as the fail-soft policy dictates.
#[derive(Debug, Clone, PartialEq, Eq)]
pub enum MetaSyntraXLError {
    /// The population could not advance a generation: no elites to clone.
    ThoughtChainError(String),
    /// A learner update failed: mismatched batch shapes or an exact
    /// computation that does not fit the machine integers.
    PPOError(String),
    /// A terminal evaluation step failed.
    EvaluationError,
    /// The retrieval path was configured without a search index.
    RetrievalError(String),
}

} // verus!
