//! The monotonic clock of the standard library, as far as a search deadline
//! needs it. What the clock shows is not known beforehand, so nothing is promised
//! of the results, and everything that is proved of their callers holds whatever
//! they are.

use std::time::{Duration, Instant};

use vstd::prelude::*;

verus! {

/// A reading of the monotonic clock.
#[verifier::external_type_specification]
#[verifier::external_body]
pub struct ExInstant(Instant);

/// `Instant::checked_add` on the current reading: the reading that the clock will
/// show after the given number of milliseconds, or nothing if no reading can
/// stand for it.
#[verifier::external_body]
pub(crate) fn deadline_in(millis: u64) -> (r: Option<Instant>) {
    Instant::now().checked_add(Duration::from_millis(millis))
}

/// `Instant::now`, compared: whether the clock shows the given reading or a later
/// one.
#[verifier::external_body]
pub(crate) fn has_passed(deadline: Instant) -> (r: bool) {
    Instant::now() >= deadline
}

} // verus!
