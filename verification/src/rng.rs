//! The crate's single source of randomness.

use vstd::prelude::*;

verus! {

/// Relies on `rand::random_range` over the half-open range below `n`: the
/// drawn value always lies in the range.  Nothing more is assumed of it;
/// every caller must be correct whatever comes back.
#[verifier::external_body]
pub(crate) fn rand_below(n: u32) -> (r: u32)
    requires
        1 <= n,
    ensures
        r < n,
{
    rand::random_range(0..n)
}

} // verus!
