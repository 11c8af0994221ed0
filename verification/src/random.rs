//! The one source of chance.

use rand::Rng;
use vstd::prelude::*;

verus! {

/// Draws an index below `bound`.
///
/// Trusted: the body asks the generator of the current thread, as the `rand`
/// crate hands it out with `thread_rng`, for a value of the half-open range
/// from zero to `bound`, with `Rng::gen_range`. That call panics on an empty
/// range, which `requires` leaves out, and returns a value of the range it
/// was given; nothing more is claimed of it, and two calls may differ.
#[verifier::external_body]
pub(crate) fn random_below(bound: usize) -> (index: usize)
    requires
        bound > 0,
    ensures
        index < bound,
{
    rand::thread_rng().gen_range(0..bound)
}

} // verus!
