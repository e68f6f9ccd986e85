//! Natural numbers of any size, held as 32-bit limbs with the least
//! significant limb first.

use vstd::prelude::*;
use crate::arith::{power, lemma_power_increases, lemma_power_positive, lemma_power_step};
use vstd::arithmetic::div_mod::{lemma_basic_div, lemma_fundamental_div_mod_converse};

verus! {

/// The weight of one limb position: 2^32.
pub const LIMB_BASE: u64 = 0x1_0000_0000;

/// The number that the limbs `s` spell, least significant limb first.
pub open spec fn limbs_value(s: Seq<u32>) -> nat
    decreases s.len(),
{
    if s.len() == 0 {
        0
    } else {
        s[0] as nat + LIMB_BASE as nat * limbs_value(s.skip(1))
    }
}

/// `LIMB_BASE` to the power `n`.
pub open spec fn limb_weight(n: nat) -> nat {
    power(LIMB_BASE as nat, n)
}

/// `Some(n)` where `n` fits in 64 bits, `None` where it does not.
pub open spec fn narrow(n: nat) -> Option<u64> {
    if n <= u64::MAX {
        Some(n as u64)
    } else {
        None
    }
}

/// The weight of a position is positive, and each position weighs
/// `LIMB_BASE` times the one below it.
pub proof fn lemma_limb_weight_step(n: nat)
    ensures
        limb_weight(0) == 1,
        limb_weight(n) > 0,
        limb_weight(n + 1) == limb_weight(n) * LIMB_BASE,
        limb_weight(n + 1) == LIMB_BASE * limb_weight(n),
{
    lemma_power_positive(LIMB_BASE as nat, n);
    lemma_power_step(LIMB_BASE as nat, n);
}

/// A limb appended at the top adds itself times the weight of its position.
pub proof fn lemma_value_push(s: Seq<u32>, x: u32)
    ensures
        limbs_value(s.push(x)) == limbs_value(s) + x * limb_weight(s.len()),
    decreases s.len(),
{
    lemma_limb_weight_step(0);
    if s.len() == 0 {
        assert(s.push(x).skip(1) =~= Seq::<u32>::empty());
        assert(limbs_value(s.push(x).skip(1)) == 0);
    } else {
        let n: nat = (s.len() - 1) as nat;
        assert(s.push(x).skip(1) =~= s.skip(1).push(x));
        lemma_value_push(s.skip(1), x);
        lemma_limb_weight_step(n);
        let w: int = limb_weight(n) as int;
        let rest: int = limbs_value(s.skip(1)) as int;
        assert(LIMB_BASE * (rest + x * w) == LIMB_BASE * rest + x * (w * LIMB_BASE))
            by (nonlinear_arith);
    }
}

/// Limbs spell a number below the weight of the first position they lack.
pub proof fn lemma_value_bound(s: Seq<u32>)
    ensures
        limbs_value(s) < limb_weight(s.len()),
    decreases s.len(),
{
    lemma_limb_weight_step(0);
    if s.len() > 0 {
        let n: nat = (s.len() - 1) as nat;
        lemma_value_bound(s.skip(1));
        lemma_limb_weight_step(n);
        let w: int = limb_weight(n) as int;
        let rest: int = limbs_value(s.skip(1)) as int;
        assert(LIMB_BASE * rest + LIMB_BASE <= LIMB_BASE * w) by (nonlinear_arith)
            requires
                rest < w,
        ;
    }
}

/// The number splits at any position into the low limbs and the high limbs
/// times the weight of that position.
pub proof fn lemma_value_split(s: Seq<u32>, k: nat)
    requires
        k <= s.len(),
    ensures
        limbs_value(s) == limbs_value(s.take(k as int)) + limb_weight(k) * limbs_value(
            s.skip(k as int),
        ),
    decreases k,
{
    lemma_limb_weight_step(0);
    if k == 0 {
        assert(s.take(0) =~= Seq::<u32>::empty());
        assert(s.skip(0) =~= s);
    } else {
        let j: nat = (k - 1) as nat;
        let t: Seq<u32> = s.skip(1);
        lemma_value_split(t, j);
        assert(t.skip(j as int) =~= s.skip(k as int));
        assert(s.take(k as int).skip(1) =~= t.take(j as int));
        lemma_limb_weight_step(j);
        let w: int = limb_weight(j) as int;
        let low: int = limbs_value(t.take(j as int)) as int;
        let high: int = limbs_value(s.skip(k as int)) as int;
        assert(LIMB_BASE * (low + w * high) == LIMB_BASE * low + (LIMB_BASE * w) * high)
            by (nonlinear_arith);
    }
}

/// Dropping the `k` lowest limbs divides by the weight of position `k`,
/// rounding down.
pub proof fn lemma_value_shift(s: Seq<u32>, k: nat)
    requires
        k <= s.len(),
    ensures
        limbs_value(s) / limb_weight(k) == limbs_value(s.skip(k as int)),
{
    lemma_value_split(s, k);
    lemma_value_bound(s.take(k as int));
    lemma_limb_weight_step(k);
    let w: int = limb_weight(k) as int;
    let high: int = limbs_value(s.skip(k as int)) as int;
    assert(w * high == high * w) by (nonlinear_arith);
    lemma_fundamental_div_mod_converse(
        limbs_value(s) as int,
        w,
        high,
        limbs_value(s.take(k as int)) as int,
    );
}

/// The four limbs of a 128-bit number.
pub fn limbs_of(x: u128) -> (out: Vec<u32>)
    ensures
        out@.len() == 4,
        limbs_value(out@) == x,
{
    let l0: u32 = (x % 0x1_0000_0000) as u32;
    let l1: u32 = ((x / 0x1_0000_0000) % 0x1_0000_0000) as u32;
    let l2: u32 = ((x / 0x1_0000_0000_0000_0000) % 0x1_0000_0000) as u32;
    let l3: u32 = (x / 0x1_0000_0000_0000_0000_0000_0000) as u32;
    let mut out: Vec<u32> = Vec::new();
    out.push(l0);
    out.push(l1);
    out.push(l2);
    out.push(l3);
    proof {
        let s: Seq<u32> = out@;
        assert(s.skip(1).skip(1) =~= s.skip(2));
        assert(s.skip(2).skip(1) =~= s.skip(3));
        assert(s.skip(3).skip(1) =~= Seq::<u32>::empty());
        assert(limbs_value(Seq::<u32>::empty()) == 0);
        assert(limbs_value(s.skip(3)) == l3);
        assert(limbs_value(s.skip(2)) == l2 + LIMB_BASE * limbs_value(s.skip(3)));
        assert(limbs_value(s.skip(1)) == l1 + LIMB_BASE * limbs_value(s.skip(2)));
        assert(limbs_value(s) == l0 + LIMB_BASE * limbs_value(s.skip(1)));
    }
    out
}

/// The product of the number in `v` and `m`, in two limbs more than `v` has.
pub fn mul_small(v: &Vec<u32>, m: u64) -> (out: Vec<u32>)
    ensures
        out@.len() == v@.len() + 2,
        limbs_value(out@) == limbs_value(v@) * m,
{
    let n: usize = v.len();
    let mut out: Vec<u32> = Vec::new();
    let mut carry: u128 = 0;
    let mut i: usize = 0;
    proof {
        lemma_limb_weight_step(0);
        assert(v@.take(0) =~= Seq::<u32>::empty());
        assert(limbs_value(out@) == 0);
        assert(limbs_value(v@.take(0)) * m == 0) by (nonlinear_arith)
            requires
                limbs_value(v@.take(0)) == 0,
        ;
    }
    while i < n
        invariant
            n == v@.len(),
            i <= n,
            out@.len() == i,
            carry <= u64::MAX,
            limbs_value(out@) + carry * limb_weight(i as nat) == limbs_value(v@.take(i as int))
                * m,
        decreases n - i,
    {
        let limb: u32 = v[i];
        assert(limb as u128 * m as u128 <= 0xFFFF_FFFF * 0xFFFF_FFFF_FFFF_FFFF)
            by (nonlinear_arith)
            requires
                limb <= 0xFFFF_FFFF,
                m <= 0xFFFF_FFFF_FFFF_FFFF,
        ;
        let t: u128 = limb as u128 * m as u128 + carry;
        let low: u32 = (t % 0x1_0000_0000) as u32;
        let high: u128 = t / 0x1_0000_0000;
        proof {
            let w: int = limb_weight(i as nat) as int;
            let done: int = limbs_value(out@) as int;
            let seen: int = limbs_value(v@.take(i as int)) as int;
            lemma_value_push(out@, low);
            lemma_value_push(v@.take(i as int), limb);
            assert(v@.take(i as int).push(limb) =~= v@.take(i + 1));
            lemma_limb_weight_step(i as nat);
            assert(done + low * w + high * (w * LIMB_BASE) == (seen + limb * w) * m)
                by (nonlinear_arith)
                requires
                    done + carry * w == seen * m,
                    low + high * LIMB_BASE == limb * m + carry,
            ;
        }
        out.push(low);
        carry = high;
        i = i + 1;
    }
    let c0: u32 = (carry % 0x1_0000_0000) as u32;
    let c1: u32 = (carry / 0x1_0000_0000) as u32;
    proof {
        let w: int = limb_weight(n as nat) as int;
        assert(v@.take(n as int) =~= v@);
        lemma_value_push(out@, c0);
        lemma_value_push(out@.push(c0), c1);
        lemma_limb_weight_step(n as nat);
        assert(c0 * w + c1 * (w * LIMB_BASE) == carry * w) by (nonlinear_arith)
            requires
                c0 + c1 * LIMB_BASE == carry,
        ;
    }
    out.push(c0);
    out.push(c1);
    out
}

/// The number in `v` without its `skip` lowest limbs, where that fits in 64
/// bits: the number divided by `LIMB_BASE` to the power `skip`, rounded down.
pub fn shifted_to_u64(v: &Vec<u32>, skip: usize) -> (r: Option<u64>)
    ensures
        r == narrow(limbs_value(v@) / limb_weight(skip as nat)),
{
    let n: usize = v.len();
    if skip >= n {
        proof {
            lemma_value_bound(v@);
            lemma_power_increases(LIMB_BASE as nat, n as nat, skip as nat);
            lemma_basic_div(limbs_value(v@) as int, limb_weight(skip as nat) as int);
        }
        return Some(0);
    }
    let ghost top: Seq<u32> = v@.skip(skip as int);
    proof {
        lemma_value_shift(v@, skip as nat);
        assert(v@.skip(n as int) =~= Seq::<u32>::empty());
    }
    let mut i: usize = n;
    while i - skip > 2
        invariant
            n == v@.len(),
            skip <= i <= n,
            top == v@.skip(skip as int),
            limbs_value(v@) / limb_weight(skip as nat) == limbs_value(top),
            limbs_value(v@.skip(i as int)) == 0,
        decreases i,
    {
        i = i - 1;
        if v[i] != 0 {
            proof {
                let j: nat = (i - skip) as nat;
                lemma_value_split(top, j);
                assert(top.skip(j as int) =~= v@.skip(i as int));
                assert(limbs_value(v@.skip(i as int)) >= 1);
                lemma_limb_weight_positions(j);
                assert(limb_weight(j) * limbs_value(v@.skip(i as int)) >= limb_weight(j))
                    by (nonlinear_arith)
                    requires
                        limbs_value(v@.skip(i as int)) >= 1,
                ;
            }
            return None;
        }
        assert(v@.skip(i as int).skip(1) =~= v@.skip(i + 1));
    }
    if i == skip {
        Some(0)
    } else if i - skip == 1 {
        assert(top.skip(1) =~= v@.skip(i as int));
        Some(v[skip] as u64)
    } else {
        assert(top.skip(1).skip(1) =~= v@.skip(i as int));
        assert(limbs_value(top.skip(1)) == top[1]);
        Some(v[skip] as u64 + v[skip + 1] as u64 * 0x1_0000_0000)
    }
}

/// From the third position on, a limb weighs more than 64 bits can hold.
proof fn lemma_limb_weight_positions(j: nat)
    requires
        j >= 2,
    ensures
        limb_weight(j) > u64::MAX,
{
    lemma_power_increases(LIMB_BASE as nat, 2, j);
    lemma_limb_weight_step(0);
    lemma_limb_weight_step(1);
}

} // verus!
