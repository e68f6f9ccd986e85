//! The mathematical model of a backoff schedule.

use crate::growth::{saturated, scaled_ns};
use vstd::prelude::*;

verus! {

/// A backoff schedule as plain numbers: what a builder has been told and
/// what a calculator works from.
pub struct Schedule {
    /// The growth per attempt, in units of 2^-32.
    pub factor: nat,
    /// The wait before the first retry, in nanoseconds.
    pub interval: nat,
    /// The most that jitter may add to a wait, in nanoseconds.
    pub jitter: nat,
    /// The longest wait ever handed out, in nanoseconds, where one is set.
    pub max: Option<nat>,
}

/// `ns`, or the cap where one is set and `ns` lies above it.
pub open spec fn capped(max: Option<nat>, ns: nat) -> nat {
    match max {
        Some(cap) => if ns > cap {
            cap
        } else {
            ns
        },
        None => ns,
    }
}

impl Schedule {
    /// The wait in nanoseconds before retry number `attempt`, counted from
    /// zero, when `drawn` nanoseconds of jitter come on top: the grown
    /// interval plus the jitter, held to 64 bits and then to the cap.
    pub open spec fn wait_ns(self, attempt: nat, drawn: nat) -> nat {
        capped(self.max, saturated(scaled_ns(self.interval, self.factor, attempt) + drawn))
    }
}

} // verus!
