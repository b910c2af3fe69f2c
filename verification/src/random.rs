//! The process-local random source behind the secret draw and the built-in
//! image pick.
use vstd::prelude::*;

verus! {

/// Relies on rand's `thread_rng` and `Rng::gen_range` over `0..n`: a
/// uniformly drawn index below `n`. Which index comes back depends on the
/// random source, so nothing more can be promised of it.
#[verifier::external_body]
pub(crate) fn random_index(n: usize) -> (r: usize)
    requires
        n > 0,
    ensures
        r < n,
{
    rand::Rng::gen_range(&mut rand::thread_rng(), 0..n)
}

} // verus!
