//! The clock of the machine.
use std::time::Duration;
use std::time::Instant;
use vstd::prelude::*;

verus! {

/// Makes `std::time::Instant` known; nothing inside it is seen.
#[verifier::external_type_specification]
#[verifier::external_body]
pub struct ExInstant(Instant);

/// The length of a span of time in nanoseconds, as
/// `std::time::Duration::as_nanos` gives it.
pub uninterp spec fn nanos_of(d: Duration) -> u128;

/// Calls `std::time::Instant::now`: the present moment.  Nothing is known of it.
#[verifier::external_body]
pub(crate) fn clock_now() -> (r: Instant) {
    Instant::now()
}

/// Calls `std::time::Instant::elapsed`: the time that has passed since
/// `since`.  Nothing is known of it.
#[verifier::external_body]
pub(crate) fn clock_elapsed(since: &Instant) -> (r: Duration) {
    since.elapsed()
}

/// Calls `std::time::Duration::as_nanos`: the length of the span in nanoseconds.
#[verifier::external_body]
pub(crate) fn duration_as_nanos(d: &Duration) -> (r: u128)
    ensures
        r == nanos_of(*d),
{
    d.as_nanos()
}

} // verus!
