use vstd::prelude::*;

verus! {

/// Relies on `rand::random_range` over `0..n`: the result is drawn from
/// the thread-local generator and lies in the given range.  `n >= 1`
/// keeps the range non-empty, which rand would reject with a panic.
/// Nothing more is assumed: the draw is random, so no two calls need
/// agree.
#[verifier::external_body]
pub(crate) fn random_below(n: u32) -> (r: u32)
    requires
        n >= 1,
    ensures
        r < n,
{
    rand::random_range(0..n)
}

} // verus!
