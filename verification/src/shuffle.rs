//! The source of randomness: the two calls into the `rand` crate.
//!
//! Nothing here is proved. The contracts state what the verified code relies
//! on; the body of each function is the call itself.

use rand::rngs::ThreadRng;
use rand::seq::SliceRandom;
use vstd::prelude::*;

verus! {

/// The handle to `rand`'s thread-local generator. Opaque to the verifier.
#[verifier::external_type_specification]
#[verifier::external_body]
pub struct ExThreadRng(ThreadRng);

/// Calls `rand::rng`, which hands out the thread-local generator.
///
/// Nothing is claimed of the generator. `rand` seeds it from the operating
/// system on first use in a thread and aborts if that source fails.
#[verifier::external_body]
pub(crate) fn thread_rng() -> ThreadRng {
    rand::rng()
}

/// Calls `SliceRandom::shuffle` on the cells.
///
/// `rand` shuffles a slice by swapping pairs of its elements, so the cells
/// afterwards are the cells before in some order: each comes as often as it
/// came. That is all the contract claims; which order comes out is left open,
/// and that `rand` draws it uniformly is not stated.
#[verifier::external_body]
pub(crate) fn shuffle(cells: &mut Vec<(usize, usize)>, rng: &mut ThreadRng)
    ensures
        final(cells)@.to_multiset() == old(cells)@.to_multiset(),
{
    cells.shuffle(rng);
}

} // verus!
