//! What the verified code knows of `std::time::Duration`.

use std::time::Duration;
use vstd::prelude::*;

verus! {

/// The whole nanoseconds that a `Duration` holds: what `Duration::as_nanos`
/// returns for it.
pub uninterp spec fn nanos_of(d: Duration) -> nat;

/// `Duration::as_nanos` returns the total number of nanoseconds of the
/// duration. Believed from std's documentation, not proved.
pub assume_specification[ Duration::as_nanos ](d: &Duration) -> (n: u128)
    ensures
        n == nanos_of(*d),
;

/// `Duration::from_nanos` makes the duration of exactly the given number of
/// nanoseconds. Believed from std's documentation, not proved.
pub assume_specification[ Duration::from_nanos ](nanos: u64) -> (d: Duration)
    ensures
        nanos_of(d) == nanos,
;

/// `Duration::from_millis` makes the duration of the given number of
/// milliseconds, a million nanoseconds each. Believed from std's
/// documentation, not proved.
pub assume_specification[ Duration::from_millis ](millis: u64) -> (d: Duration)
    ensures
        nanos_of(d) == millis * 1_000_000,
;

} // verus!
