//! Exponential backoff: how long to wait before retrying an operation.
//!
//! The wait grows geometrically with the number of attempts made, carries a
//! bounded random jitter, and can be held under a cap. All arithmetic is
//! exact: the growth factor is a fixed-point number counted in units of
//! 2^-32, and a wait is the exact product rounded down to whole nanoseconds.

use crate::growth::scaled_up_to;
use crate::jitter::sample_up_to;
use crate::schedule::Schedule;
use crate::time::nanos_of;
use std::time::Duration;
use vstd::prelude::*;

pub mod arith;
pub mod growth;
pub mod jitter;
pub mod laws;
pub mod limbs;
pub mod schedule;
pub mod time;

pub use crate::growth::FACTOR_ONE;

verus! {

/// The factor of a builder that was told none: 1.75.
pub const DEFAULT_FACTOR: u64 = 0x1_C000_0000;

/// Collects the parameters of a backoff schedule.
pub struct ExponentialBackoffBuilder {
    factor: u64,
    interval: Duration,
    jitter: Duration,
    max: Option<Duration>,
}

impl View for ExponentialBackoffBuilder {
    type V = Schedule;

    closed spec fn view(&self) -> Schedule {
        Schedule {
            factor: self.factor as nat,
            interval: nanos_of(self.interval),
            jitter: nanos_of(self.jitter),
            max: match self.max {
                Some(cap) => Some(nanos_of(cap)),
                None => None,
            },
        }
    }
}

impl Default for ExponentialBackoffBuilder {
    /// A factor of 1.75, a base interval of 500 ms, at most 150 ms of jitter
    /// and no cap.
    fn default() -> (b: Self)
        ensures
            b@ == (Schedule {
                factor: DEFAULT_FACTOR as nat,
                interval: 500_000_000,
                jitter: 150_000_000,
                max: None,
            }),
    {
        ExponentialBackoffBuilder {
            factor: DEFAULT_FACTOR,
            interval: Duration::from_millis(500),
            jitter: Duration::from_millis(150),
            max: None,
        }
    }
}

impl ExponentialBackoffBuilder {
    /// Sets the growth per attempt, in units of 2^-32: `FACTOR_ONE` keeps
    /// the wait constant, twice `FACTOR_ONE` doubles it with every attempt.
    pub fn factor(self, factor: u64) -> (b: Self)
        ensures
            b@ == (Schedule { factor: factor as nat, ..self@ }),
    {
        ExponentialBackoffBuilder {
            factor,
            interval: self.interval,
            jitter: self.jitter,
            max: self.max,
        }
    }

    /// Sets the wait before the first retry.
    pub fn interval(self, interval: Duration) -> (b: Self)
        ensures
            b@ == (Schedule { interval: nanos_of(interval), ..self@ }),
    {
        ExponentialBackoffBuilder {
            factor: self.factor,
            interval,
            jitter: self.jitter,
            max: self.max,
        }
    }

    /// Sets the most that jitter may add to a wait.
    pub fn jitter(self, jitter: Duration) -> (b: Self)
        ensures
            b@ == (Schedule { jitter: nanos_of(jitter), ..self@ }),
    {
        ExponentialBackoffBuilder {
            factor: self.factor,
            interval: self.interval,
            jitter,
            max: self.max,
        }
    }

    /// Sets the longest wait that is ever handed out, however many attempts
    /// were made.
    pub fn max(self, max: Duration) -> (b: Self)
        ensures
            b@ == (Schedule { max: Some(nanos_of(max)), ..self@ }),
    {
        ExponentialBackoffBuilder {
            factor: self.factor,
            interval: self.interval,
            jitter: self.jitter,
            max: Some(max),
        }
    }

    /// Ends the configuration and hands out the calculator for it.
    pub fn build(self) -> (e: Exponential)
        ensures
            e@ == self@,
    {
        Exponential {
            factor: self.factor,
            interval: self.interval.as_nanos(),
            jitter: self.jitter.as_nanos(),
            max: match self.max {
                Some(cap) => Some(cap.as_nanos()),
                None => None,
            },
        }
    }
}

/// Calculates the waits of one backoff schedule.
pub struct Exponential {
    factor: u64,
    interval: u128,
    jitter: u128,
    max: Option<u128>,
}

impl View for Exponential {
    type V = Schedule;

    closed spec fn view(&self) -> Schedule {
        Schedule {
            factor: self.factor as nat,
            interval: self.interval as nat,
            jitter: self.jitter as nat,
            max: match self.max {
                Some(cap) => Some(cap as nat),
                None => None,
            },
        }
    }
}

impl Exponential {
    /// The wait before retry number `attempt`, counted from zero, with
    /// `drawn` nanoseconds of jitter on top.
    pub fn duration_with_jitter(&self, attempt: usize, drawn: u128) -> (d: Duration)
        ensures
            nanos_of(d) == self@.wait_ns(attempt as nat, drawn as nat),
    {
        let limit: u64 = match self.max {
            Some(cap) => if cap < u64::MAX as u128 {
                cap as u64
            } else {
                u64::MAX
            },
            None => u64::MAX,
        };
        let grown: u64 = scaled_up_to(self.interval, self.factor, attempt, limit);
        let room: u64 = limit - grown;
        let ns: u64 = if drawn >= room as u128 {
            limit
        } else {
            grown + drawn as u64
        };
        Duration::from_nanos(ns)
    }

    /// The wait before retry number `attempt`, counted from zero, with a
    /// fresh draw of jitter on top.
    pub fn duration(&self, attempt: usize) -> (d: Duration)
        ensures
            exists|drawn: nat|
                drawn <= self@.jitter && nanos_of(d) == #[trigger] self@.wait_ns(
                    attempt as nat,
                    drawn,
                ),
            self@.jitter == 0 ==> nanos_of(d) == self@.wait_ns(attempt as nat, 0),
            self@.wait_ns(attempt as nat, 0) <= nanos_of(d) <= self@.wait_ns(
                attempt as nat,
                self@.jitter,
            ),
            self@.max matches Some(cap) ==> nanos_of(d) <= cap,
    {
        let drawn: u128 = sample_up_to(self.jitter);
        self.duration_with_jitter(attempt, drawn)
    }
}

} // verus!
