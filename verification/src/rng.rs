//! The simulation's one source of randomness.

use vstd::prelude::*;
use rand::Rng;

verus! {

/// Relies on `rand::thread_rng` and `rand::Rng::gen_range` on an `i64`
/// half-open range: the sample lies in `[lo, hi)`, and the call panics
/// only on an empty range, which the precondition rules out.
#[verifier::external_body]
pub(crate) fn random_in_range(lo: i64, hi: i64) -> (r: i64)
    requires
        lo < hi,
    ensures
        lo <= r < hi,
{
    rand::thread_rng().gen_range(lo..hi)
}

} // verus!
