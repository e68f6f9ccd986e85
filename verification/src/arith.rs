//! Powers of natural numbers and the few facts about them that the rest of
//! the crate rests on.

use vstd::arithmetic::div_mod::{lemma_fundamental_div_mod, lemma_mod_pos_bound};
use vstd::prelude::*;

verus! {

/// `base` to the power `exp`, with `power(base, 0) == 1` for every base.
pub open spec fn power(base: nat, exp: nat) -> nat
    decreases exp,
{
    if exp == 0 {
        1
    } else {
        base * power(base, (exp - 1) as nat)
    }
}

/// One more factor, written on either side.
pub proof fn lemma_power_step(base: nat, exp: nat)
    ensures
        power(base, exp + 1) == base * power(base, exp),
        power(base, exp + 1) == power(base, exp) * base,
{
    assert(base * power(base, exp) == power(base, exp) * base) by (nonlinear_arith);
}

/// A power of a positive number is positive.
pub proof fn lemma_power_positive(base: nat, exp: nat)
    requires
        base > 0,
    ensures
        power(base, exp) > 0,
    decreases exp,
{
    if exp > 0 {
        let e: nat = (exp - 1) as nat;
        lemma_power_positive(base, e);
        assert(base * power(base, e) > 0) by (nonlinear_arith)
            requires
                base > 0,
                power(base, e) > 0,
        ;
    }
}

/// Powers of a positive number do not shrink as the exponent grows.
pub proof fn lemma_power_increases(base: nat, e1: nat, e2: nat)
    requires
        base > 0,
        e1 <= e2,
    ensures
        power(base, e1) <= power(base, e2),
    decreases e2,
{
    if e1 < e2 {
        let e: nat = (e2 - 1) as nat;
        lemma_power_increases(base, e1, e);
        lemma_power_positive(base, e);
        assert(power(base, e) <= base * power(base, e)) by (nonlinear_arith)
            requires
                base > 0,
                power(base, e) > 0,
        ;
    }
}

/// Rounding down leaves the quotient within one divisor of the dividend.
pub proof fn lemma_div_at_most(x: nat, d: nat, q: nat)
    requires
        d > 0,
        q == x / d,
    ensures
        q * d <= x < (q + 1) * d,
{
    lemma_fundamental_div_mod(x as int, d as int);
    lemma_mod_pos_bound(x as int, d as int);
    assert(d * q == q * d) by (nonlinear_arith);
    assert((q + 1) * d == q * d + d) by (nonlinear_arith);
}

/// A number whose multiple by the divisor lies at or below the dividend is
/// no more than the quotient.
pub proof fn lemma_div_at_least(x: nat, d: nat, q: nat)
    requires
        d > 0,
        q * d <= x,
    ensures
        q <= x / d,
{
    lemma_div_at_most(x, d, x / d);
    assert(q < x / d + 1) by (nonlinear_arith)
        requires
            q * d <= x,
            x < (x / d + 1) * d,
            d > 0,
    ;
}

} // verus!
