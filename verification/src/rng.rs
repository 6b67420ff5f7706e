//! The randomness that seeding a simulation uses, drawn from the `rand`
//! crate behind a trusted boundary.

use vstd::prelude::*;

verus! {

/// Relies on rand::random_range: a draw from the thread-local generator,
/// uniform over the given inclusive range. It panics only on an empty
/// range, which the precondition rules out, and the sampled value always
/// lies within the range.
#[verifier::external_body]
pub(crate) fn random_in_range(lo: i64, hi: i64) -> (r: i64)
    requires
        lo <= hi,
    ensures
        lo <= r <= hi,
{
    rand::random_range(lo..=hi)
}

} // verus!
