//! The one source of chance: a uniform index.

use vstd::prelude::*;
use rand::Rng;

verus! {

/// Draws an index below `len` from the thread's generator, by
/// `rand::Rng::gen_range` on `rand::thread_rng()`. The contract claims only
/// that the draw lies in `0..len`; `gen_range` panics on an empty range, so
/// `len` must be positive. Not covered: `thread_rng` gives up when the
/// system cannot seed the generator, whatever `len` is.
#[verifier::external_body]
pub(crate) fn random_index(len: usize) -> (draw: usize)
    requires
        len > 0,
    ensures
        draw < len,
{
    rand::thread_rng().gen_range(0..len)
}

} // verus!
