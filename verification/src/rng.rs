//! Randomness for agent spawning. The one outside call is isolated here; the
//! spawn logic itself is verified for every value the range admits.

use vstd::prelude::*;
use rand::Rng;

verus! {

/// Relies on `rand::Rng::gen_range` on the thread-local generator: returns a
/// uniformly random value of the half-open range `[lo, hi)`. It panics only
/// on an empty range, which the precondition excludes.
#[verifier::external_body]
pub(crate) fn random_in_range(lo: i64, hi: i64) -> (r: i64)
    requires
        lo < hi,
    ensures
        lo <= r < hi,
{
    rand::thread_rng().gen_range(lo..hi)
}

} // verus!
