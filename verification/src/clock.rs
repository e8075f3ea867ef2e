//! The clock: the one call that reads the time.

use std::time::Instant;
use vstd::prelude::*;

verus! {

/// A point in time as `std` measures it. Opaque to the verifier.
#[verifier::external_type_specification]
#[verifier::external_body]
pub struct ExInstant(Instant);

/// Calls `Instant::now`.
///
/// Nothing is claimed of the instant that comes back: it depends on when the
/// call is made.
#[verifier::external_body]
pub(crate) fn now() -> Instant {
    Instant::now()
}

} // verus!
