//! A deadline a fixed duration from its creation, polled by the progress
//! stream's timer loop between round-robin ticks.

use vstd::prelude::*;
use std::time::Duration;
use std::time::Instant;

verus! {

/// std::time::Instant, declared opaquely: a reading of the monotonic
/// clock, carried through but never inspected by verified code.
#[verifier::external_type_specification]
#[verifier::external_body]
pub struct ExInstant(Instant);

/// Relies on std::time::Instant::now: a reading of the monotonic clock;
/// nothing is promised of its value.
#[verifier::external_body]
fn instant_now() -> (t: Instant) {
    Instant::now()
}

/// Relies on std::time::Instant::checked_add: the instant `delay` after
/// `t`, or `None` when the clock's range cannot represent it.
#[verifier::external_body]
fn instant_checked_add(t: &Instant, delay: Duration) -> (r: Option<Instant>) {
    t.checked_add(delay)
}

/// Relies on std::time::Instant's `Ord`: whether `a` is at or past `b`.
#[verifier::external_body]
fn instant_at_or_past(a: &Instant, b: &Instant) -> (r: bool) {
    *a >= *b
}

/// A point in time a fixed duration from its creation.
pub struct Delay {
    when: Instant,
}

impl Delay {
    /// A deadline `time` from now; a deadline past the clock's range is
    /// clamped to now and is due immediately.
    pub fn for_duration(time: Duration) -> (d: Delay) {
        let now = instant_now();
        let when = match instant_checked_add(&now, time) {
            Some(t) => t,
            None => now,
        };
        Delay { when }
    }

    /// Whether the deadline has passed at the moment of the call.
    pub fn is_elapsed(&self) -> (r: bool) {
        let now = instant_now();
        instant_at_or_past(&now, &self.when)
    }
}

} // verus!
