//! The system's single source of randomness. Randomness is confined to the
//! `mutate` operators of individuals; the engine itself draws nothing.

use vstd::prelude::*;
use rand::Rng;

verus! {

/// Relies on `rand::Rng::gen_range` over `0..n` on the thread-local
/// generator: a uniformly drawn index below `n`. It panics only on an empty
/// range, which the precondition excludes. Nothing more can be promised of a
/// random draw than its range.
#[verifier::external_body]
pub(crate) fn random_index(n: usize) -> (r: usize)
    requires
        1 <= n,
    ensures
        r < n,
{
    rand::thread_rng().gen_range(0..n)
}

} // verus!
