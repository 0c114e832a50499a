//! Trusted draws from the thread-local random number generator, used only
//! during random network construction.

use vstd::prelude::*;

verus! {

/// Relies on rand::random::<bool>: a fresh uniform draw, of which nothing is
/// assumed.
#[verifier::external_body]
pub(crate) fn random_bool() -> bool {
    rand::random::<bool>()
}

/// Relies on rand::RngExt::random_range over `0..n`: it panics only on an
/// empty range and returns a value drawn from the range, so the result is
/// below `n`.
#[verifier::external_body]
pub(crate) fn random_index_below(n: u16) -> (r: u16)
    requires
        n > 0,
    ensures
        r < n,
{
    let mut rng = rand::rng();
    rand::RngExt::random_range(&mut rng, 0..n)
}

} // verus!
