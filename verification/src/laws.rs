//! What holds of every schedule, proved over the model that the contracts of
//! the calculator speak of.

use crate::growth::{
    lemma_scaled_antitone, lemma_scaled_monotone, saturated, scaled_ns, FACTOR_ONE,
};
use crate::schedule::{capped, Schedule};
use vstd::prelude::*;

verus! {

/// Without jitter a wait is fixed by the schedule and the attempt: it is the
/// grown interval, or the cap where that is less. This is stated where the
/// wait fits in 64 bits of nanoseconds, which a cap of that size sees to.
pub proof fn lemma_exact_without_jitter(s: Schedule, attempt: nat, drawn: nat)
    requires
        s.jitter == 0,
        drawn <= s.jitter,
        scaled_ns(s.interval, s.factor, attempt) <= u64::MAX || (s.max matches Some(cap) && cap
            <= u64::MAX),
    ensures
        s.wait_ns(attempt, drawn) == capped(s.max, scaled_ns(s.interval, s.factor, attempt)),
{
}

/// Without jitter and beyond 64 bits of nanoseconds a wait is still fixed by
/// the schedule and the attempt: it is the largest 64-bit count, or the cap
/// where that is less.
pub proof fn lemma_held_without_jitter(s: Schedule, attempt: nat, drawn: nat)
    requires
        s.jitter == 0,
        drawn <= s.jitter,
    ensures
        s.wait_ns(attempt, drawn) == capped(
            s.max,
            saturated(scaled_ns(s.interval, s.factor, attempt)),
        ),
{
}

/// With a factor of one or more, and the same jitter drawn, a later attempt
/// never waits less than an earlier one; once a wait has reached the cap,
/// every later one equals the cap.
pub proof fn lemma_waits_grow(s: Schedule, earlier: nat, later: nat, drawn: nat)
    requires
        s.factor >= FACTOR_ONE,
        earlier <= later,
    ensures
        s.wait_ns(earlier, drawn) <= s.wait_ns(later, drawn),
        s.max matches Some(cap) ==> (s.wait_ns(earlier, drawn) == cap ==> s.wait_ns(
            later,
            drawn,
        ) == cap),
{
    lemma_scaled_monotone(s.interval, s.factor, earlier, later);
}

/// With a factor of one or less, and the same jitter drawn, a later attempt
/// never waits longer than an earlier one.
pub proof fn lemma_waits_shrink(s: Schedule, earlier: nat, later: nat, drawn: nat)
    requires
        s.factor <= FACTOR_ONE,
        earlier <= later,
    ensures
        s.wait_ns(later, drawn) <= s.wait_ns(earlier, drawn),
{
    lemma_scaled_antitone(s.interval, s.factor, earlier, later);
}

/// No wait exceeds the cap, where one is set, whatever the attempt and the
/// jitter, nor 64 bits of nanoseconds.
pub proof fn lemma_cap_is_enforced(s: Schedule, attempt: nat, drawn: nat)
    ensures
        s.max matches Some(cap) ==> s.wait_ns(attempt, drawn) <= cap,
        s.wait_ns(attempt, drawn) <= u64::MAX,
{
}

/// Jitter within its bound moves a wait between the wait without jitter and
/// the wait with all of it, and never beyond the grown interval plus the
/// bound. Where neither the cap nor 64 bits cut in, the wait is the grown
/// interval plus what was drawn.
pub proof fn lemma_jitter_is_bounded(s: Schedule, attempt: nat, drawn: nat)
    requires
        drawn <= s.jitter,
    ensures
        s.wait_ns(attempt, 0) <= s.wait_ns(attempt, drawn) <= s.wait_ns(attempt, s.jitter),
        s.wait_ns(attempt, drawn) <= scaled_ns(s.interval, s.factor, attempt) + s.jitter,
        s.wait_ns(attempt, drawn) >= capped(
            s.max,
            saturated(scaled_ns(s.interval, s.factor, attempt)),
        ),
        s.wait_ns(attempt, s.jitter) == capped(
            s.max,
            saturated(scaled_ns(s.interval, s.factor, attempt) + s.jitter),
        ),
        scaled_ns(s.interval, s.factor, attempt) + s.jitter <= capped(s.max, u64::MAX as nat)
            ==> s.wait_ns(attempt, drawn) == scaled_ns(s.interval, s.factor, attempt) + drawn,
{
}

} // verus!
