//! How the wait grows with the attempt count: the base interval times the
//! factor to the power of the attempt, rounded down to whole nanoseconds.

use crate::arith::{
    lemma_div_at_least, lemma_div_at_most, lemma_power_positive, lemma_power_step, power,
};
use crate::limbs::{limbs_of, limbs_value, mul_small, shifted_to_u64};
use vstd::prelude::*;

verus! {

/// The fixed-point representation of the growth factor 1. A factor is a
/// count of units of 2^-32, so `FACTOR_ONE` times 7 / 4 stands for 1.75.
pub const FACTOR_ONE: u64 = 0x1_0000_0000;

/// The base interval after `attempt` rounds of growth, in whole nanoseconds:
/// `interval * (factor / FACTOR_ONE)^attempt`, rounded down.
pub open spec fn scaled_ns(interval: nat, factor: nat, attempt: nat) -> nat {
    interval * power(factor, attempt) / power(FACTOR_ONE as nat, attempt)
}

/// The lesser of two numbers.
pub open spec fn lesser(a: nat, b: nat) -> nat {
    if a <= b {
        a
    } else {
        b
    }
}

/// `n` where it fits in 64 bits, and the largest 64-bit number where it does
/// not.
pub open spec fn saturated(n: nat) -> nat {
    lesser(n, u64::MAX as nat)
}

/// Before the first retry the interval stands as it is.
pub proof fn lemma_scaled_at_zero(interval: nat, factor: nat)
    ensures
        scaled_ns(interval, factor, 0) == interval,
{
    assert(interval * 1 / 1 == interval);
}

/// A factor of at least one never lets the next attempt wait less.
pub proof fn lemma_scaled_grows(interval: nat, factor: nat, attempt: nat)
    requires
        factor >= FACTOR_ONE,
    ensures
        scaled_ns(interval, factor, attempt) <= scaled_ns(interval, factor, attempt + 1),
{
    let one: nat = FACTOR_ONE as nat;
    let num: nat = interval * power(factor, attempt);
    let den: nat = power(one, attempt);
    let q: nat = num / den;
    lemma_power_positive(one, attempt);
    lemma_power_positive(one, attempt + 1);
    lemma_power_step(factor, attempt);
    lemma_power_step(one, attempt);
    lemma_div_at_most(num, den, q);
    assert(interval * (power(factor, attempt) * factor) == num * factor) by (nonlinear_arith)
        requires
            num == interval * power(factor, attempt),
    ;
    assert(q * (den * one) <= num * factor) by (nonlinear_arith)
        requires
            q * den <= num,
            one <= factor,
    ;
    lemma_div_at_least(num * factor, den * one, q);
}

/// A factor of at most one never lets the next attempt wait longer.
pub proof fn lemma_scaled_shrinks(interval: nat, factor: nat, attempt: nat)
    requires
        factor <= FACTOR_ONE,
    ensures
        scaled_ns(interval, factor, attempt + 1) <= scaled_ns(interval, factor, attempt),
{
    let one: nat = FACTOR_ONE as nat;
    let num: nat = interval * power(factor, attempt);
    let den: nat = power(one, attempt);
    let q: nat = num / den;
    lemma_power_positive(one, attempt);
    lemma_power_positive(one, attempt + 1);
    lemma_power_step(factor, attempt);
    lemma_power_step(one, attempt);
    lemma_div_at_most(num, den, q);
    assert(interval * (power(factor, attempt) * factor) == num * factor) by (nonlinear_arith)
        requires
            num == interval * power(factor, attempt),
    ;
    assert(num * factor < (q + 1) * (den * one)) by (nonlinear_arith)
        requires
            num < (q + 1) * den,
            factor <= one,
            one > 0,
    ;
    lemma_div_at_most(num * factor, den * one, (num * factor) / (den * one));
    assert((num * factor) / (den * one) <= q) by (nonlinear_arith)
        requires
            ((num * factor) / (den * one)) * (den * one) <= num * factor,
            num * factor < (q + 1) * (den * one),
            den * one > 0,
    ;
}

/// With a factor of at least one, a later attempt waits at least as long as
/// an earlier one.
pub proof fn lemma_scaled_monotone(interval: nat, factor: nat, earlier: nat, later: nat)
    requires
        factor >= FACTOR_ONE,
        earlier <= later,
    ensures
        scaled_ns(interval, factor, earlier) <= scaled_ns(interval, factor, later),
    decreases later - earlier,
{
    if earlier < later {
        lemma_scaled_grows(interval, factor, earlier);
        lemma_scaled_monotone(interval, factor, earlier + 1, later);
    }
}

/// With a factor of at most one, a later attempt waits at most as long as an
/// earlier one.
pub proof fn lemma_scaled_antitone(interval: nat, factor: nat, earlier: nat, later: nat)
    requires
        factor <= FACTOR_ONE,
        earlier <= later,
    ensures
        scaled_ns(interval, factor, later) <= scaled_ns(interval, factor, earlier),
    decreases later - earlier,
{
    if earlier < later {
        lemma_scaled_shrinks(interval, factor, earlier);
        lemma_scaled_antitone(interval, factor, earlier + 1, later);
    }
}

/// `scaled_ns(interval, factor, attempt)`, or `limit` where that is larger.
///
/// The product is kept exactly, so one call takes time and memory that grow
/// with the number of rounds gone through. A factor above one ends the rounds
/// as soon as the wait has reached `limit`, one below one as soon as it has
/// shrunk to nothing; a factor that differs from one by very little can take
/// very many rounds to get to either.
pub fn scaled_up_to(interval: u128, factor: u64, attempt: usize, limit: u64) -> (r: u64)
    ensures
        r == lesser(scaled_ns(interval as nat, factor as nat, attempt as nat), limit as nat),
{
    proof {
        lemma_scaled_at_zero(interval as nat, factor as nat);
    }
    if interval == 0 {
        assert(0 * power(factor as nat, attempt as nat) == 0) by (nonlinear_arith);
        proof {
            lemma_power_positive(FACTOR_ONE as nat, attempt as nat);
        }
        return 0;
    }
    if attempt == 0 || factor == FACTOR_ONE {
        proof {
            if factor == FACTOR_ONE {
                lemma_scaled_monotone(interval as nat, factor as nat, 0, attempt as nat);
                lemma_scaled_antitone(interval as nat, factor as nat, 0, attempt as nat);
            }
        }
        return if interval > limit as u128 {
            limit
        } else {
            interval as u64
        };
    }
    let mut acc: Vec<u32> = limbs_of(interval);
    let mut round: usize = 0;
    assert(interval * power(factor as nat, 0) == interval) by (nonlinear_arith)
        requires
            power(factor as nat, 0) == 1,
    ;
    while round < attempt
        invariant
            round <= attempt,
            limbs_value(acc@) == interval * power(factor as nat, round as nat),
        decreases attempt - round,
    {
        let now: Option<u64> = shifted_to_u64(&acc, round);
        if factor > FACTOR_ONE {
            let reached: bool = match now {
                Some(ns) => ns >= limit,
                None => true,
            };
            if reached {
                proof {
                    lemma_scaled_monotone(
                        interval as nat,
                        factor as nat,
                        round as nat,
                        attempt as nat,
                    );
                }
                return limit;
            }
        } else if now == Some(0u64) {
            proof {
                lemma_scaled_antitone(
                    interval as nat,
                    factor as nat,
                    round as nat,
                    attempt as nat,
                );
            }
            return 0;
        }
        proof {
            lemma_power_step(factor as nat, round as nat);
            assert(interval * power(factor as nat, round as nat) * factor == interval * (power(
                factor as nat,
                round as nat,
            ) * factor)) by (nonlinear_arith);
        }
        acc = mul_small(&acc, factor);
        round = round + 1;
    }
    match shifted_to_u64(&acc, attempt) {
        Some(ns) => if ns > limit {
            limit
        } else {
            ns
        },
        None => limit,
    }
}

} // verus!
