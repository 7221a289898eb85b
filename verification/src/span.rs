//! Lengths of time.
//!
//! [`Duration`] is opaque to the proofs; what is known of one is its length in
//! nanoseconds.

use std::time::Duration;

use vstd::prelude::*;

verus! {

/// The length of `duration` in nanoseconds.
pub uninterp spec fn duration_nanos(duration: Duration) -> nat;

/// [`Duration::as_nanos`] returns the total number of nanoseconds in the
/// duration.
pub assume_specification[ Duration::as_nanos ](duration: &Duration) -> (nanos: u128)
    ensures
        nanos == duration_nanos(*duration),
;

/// [`Duration::from_nanos`] makes a duration of exactly that many nanoseconds.
pub assume_specification[ Duration::from_nanos ](nanos: u64) -> (duration: Duration)
    ensures
        duration_nanos(duration) == nanos,
;

/// [`Duration::from_millis`] makes a duration of exactly that many milliseconds.
pub assume_specification[ Duration::from_millis ](millis: u64) -> (duration: Duration)
    ensures
        duration_nanos(duration) == millis * 1_000_000,
;

/// [`Duration::from_secs`] makes a duration of exactly that many whole seconds.
pub assume_specification[ Duration::from_secs ](seconds: u64) -> (duration: Duration)
    ensures
        duration_nanos(duration) == seconds * 1_000_000_000,
;

/// The longer of two durations.
pub fn longer(a: Duration, b: Duration) -> (longest: Duration)
    ensures
        longest == (if duration_nanos(a) >= duration_nanos(b) {
            a
        } else {
            b
        }),
{
    if a.as_nanos() >= b.as_nanos() {
        a
    } else {
        b
    }
}

} // verus!
