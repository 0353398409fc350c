//! Wall-clock time around a run.
//!
//! Nothing can be proved of what a clock reads. A span of time is carried
//! through as `std::time::Duration`; the one thing the library reads from it,
//! its whole milliseconds, has a name, [`millis_of`].

use std::time::{Duration, Instant};
use vstd::prelude::*;

verus! {

#[verifier::external_type_specification]
#[verifier::external_body]
pub struct ExInstant(std::time::Instant);

/// The whole milliseconds that a `Duration` holds.
pub uninterp spec fn millis_of(span: Duration) -> nat;

/// `Instant::now`: the present moment. Nothing is known of it.
#[verifier::external_body]
pub(crate) fn now() -> Instant {
    Instant::now()
}

/// `Instant::elapsed`: the time gone by since `start`. Nothing is known of
/// it.
#[verifier::external_body]
pub(crate) fn elapsed_since(start: &Instant) -> Duration {
    start.elapsed()
}

/// `Duration::as_millis`: the whole milliseconds of the span.
#[verifier::external_body]
pub(crate) fn whole_millis(span: &Duration) -> (r: u128)
    ensures
        r == millis_of(*span),
{
    span.as_millis()
}

/// `Duration::from_millis`: the span of that many milliseconds.
#[verifier::external_body]
pub(crate) fn span_of_millis(millis: u64) -> (r: Duration)
    ensures
        millis_of(r) == millis,
{
    Duration::from_millis(millis)
}

} // verus!
