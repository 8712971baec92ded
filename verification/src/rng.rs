//! The single source of randomness for sampling and reproduction.

use vstd::prelude::*;

verus! {

/// Relies on `rand::Rng::gen_range` over the half-open range `0..n`: it
/// returns a value of that range, and panics only when the range is empty,
/// which the precondition rules out.  Nothing more is assumed of the draw:
/// callers state what holds of every outcome.
#[verifier::external_body]
pub(crate) fn random_below(n: u128) -> (r: u128)
    requires
        n >= 1,
    ensures
        r < n,
{
    rand::Rng::gen_range(&mut rand::thread_rng(), 0..n)
}

} // verus!
