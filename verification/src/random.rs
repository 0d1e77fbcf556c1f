//! The library's one source of randomness: uniform integer draws from the
//! process-global generator.

use vstd::prelude::*;

verus! {

/// Relies on rand::Rng::gen_range on rand::thread_rng: a draw from
/// `lo..hi`, which lies in that range; `gen_range` panics only on an empty
/// range, which the precondition rules out.
#[verifier::external_body]
pub(crate) fn random_in_range(lo: u64, hi: u64) -> (r: u64)
    requires
        lo < hi,
    ensures
        lo <= r < hi,
{
    rand::Rng::gen_range(&mut rand::thread_rng(), lo..hi)
}

} // verus!
