//! Exact powers of small numbers, held as digits in base 2^32, and the
//! position of their leading binary digit.

use vstd::arithmetic::logarithm::lemma_log0;
use vstd::arithmetic::logarithm::lemma_log_s;
use vstd::arithmetic::logarithm::log;
use vstd::arithmetic::power::lemma0_pow;
use vstd::arithmetic::power::lemma_pow0;
use vstd::arithmetic::power::lemma_pow1;
use vstd::arithmetic::power::lemma_pow_adds;
use vstd::arithmetic::power::pow;
use vstd::arithmetic::power2::lemma2_to64;
use vstd::arithmetic::power2::lemma_pow2_adds;
use vstd::arithmetic::power2::lemma_pow2_pos;
use vstd::arithmetic::power2::lemma_pow2_unfold;
use vstd::arithmetic::power2::pow2;
use vstd::prelude::*;

verus! {

/// The weight of the digit at `index`: 2^32 to the power `index`.
pub open spec fn limb_weight(index: nat) -> nat {
    pow2(32 * index)
}

/// The number that `limbs` spell in base 2^32, least significant digit first.
pub open spec fn limbs_value(limbs: Seq<u32>) -> nat
    decreases limbs.len(),
{
    if limbs.len() == 0 {
        0
    } else {
        limbs_value(limbs.drop_last()) + limbs.last() as nat * limb_weight(
            (limbs.len() - 1) as nat,
        )
    }
}

/// Each weight is 2^32 times the one before it.
proof fn limb_weight_step(index: nat)
    ensures
        limb_weight(index + 1) == 0x1_0000_0000 * limb_weight(index),
        limb_weight(index) > 0,
{
    lemma2_to64();
    lemma_pow2_adds(32, 32 * index);
    lemma_pow2_pos(32 * index);
}

/// Digits spell a number below the weight of the first digit they lack.
proof fn limbs_value_bound(limbs: Seq<u32>)
    ensures
        limbs_value(limbs) < limb_weight(limbs.len()),
    decreases limbs.len(),
{
    if limbs.len() == 0 {
        lemma2_to64();
    } else {
        let rest = limbs.drop_last();
        let top = limbs.last() as nat;
        let weight = limb_weight(rest.len());
        limbs_value_bound(rest);
        limb_weight_step(rest.len());
        assert(top * weight <= 0xffff_ffff * weight) by (nonlinear_arith)
            requires
                top <= 0xffff_ffff,
        ;
    }
}

/// The one exponent `k` with `2^k <= x < 2^(k+1)` is the binary logarithm of `x`.
pub proof fn log2_between(x: int, k: nat)
    requires
        pow2(k) <= x < pow2(k + 1),
    ensures
        log(2, x) == k,
    decreases k,
{
    lemma2_to64();
    if k == 0 {
        lemma_log0(2, x);
    } else {
        lemma_pow2_unfold(k);
        lemma_pow2_unfold(k + 1);
        lemma_pow2_pos((k - 1) as nat);
        lemma_log_s(2, x);
        log2_between(x / 2, (k - 1) as nat);
    }
}

/// A positive number lies between two neighbouring powers of two, the lower
/// of which has its binary logarithm for exponent.
pub proof fn log2_brackets(x: int)
    requires
        1 <= x,
    ensures
        0 <= log(2, x),
        pow2(log(2, x) as nat) <= x < pow2((log(2, x) + 1) as nat),
    decreases x,
{
    lemma2_to64();
    if x < 2 {
        lemma_log0(2, x);
    } else {
        lemma_log_s(2, x);
        log2_brackets(x / 2);
        let k = log(2, x / 2) as nat;
        lemma_pow2_unfold(k + 1);
        lemma_pow2_unfold(k + 2);
    }
}

/// Multiplies the number that `limbs` spell by `factor`, in place.
fn scale(limbs: &mut Vec<u32>, factor: u32)
    ensures
        limbs_value(final(limbs)@) == factor as nat * limbs_value(old(limbs)@),
        final(limbs)@.len() <= old(limbs)@.len() + 1,
{
    let ghost before = limbs@;
    let count = limbs.len();
    let mut carry: u64 = 0;
    let mut i: usize = 0;
    proof {
        assert(before.take(0).len() == 0);
        assert(limbs_value(before.take(0)) == 0);
    }
    while i < count
        invariant
            i <= count,
            limbs@.len() == count,
            before.len() == count,
            carry < 0x1_0000_0000,
            limbs_value(limbs@.take(i as int)) + carry as nat * limb_weight(i as nat)
                == factor as nat * limbs_value(before.take(i as int)),
            forall|j: int| i <= j < count ==> limbs@[j] == before[j],
        decreases count - i,
    {
        let ghost prior = limbs@;
        let ghost carried = carry as nat;
        let digit: u64 = limbs[i] as u64;
        assert(digit * factor + carry <= 0xffff_ffff_ffff_ffff) by (nonlinear_arith)
            requires
                digit <= 0xffff_ffff,
                factor <= 0xffff_ffff,
                carry <= 0xffff_ffff,
        ;
        let total: u64 = digit * (factor as u64) + carry;
        let low: u32 = (total % 0x1_0000_0000) as u32;
        carry = total / 0x1_0000_0000;
        limbs[i] = low;
        proof {
            let weight = limb_weight(i as nat);
            let done = limbs@.take(i as int + 1);
            let source = before.take(i as int + 1);
            assert(done.drop_last() =~= prior.take(i as int));
            assert(source.drop_last() =~= before.take(i as int));
            limb_weight_step(i as nat);
            let below = limbs_value(prior.take(i as int));
            let below_source = limbs_value(before.take(i as int));
            assert(limbs_value(done) == below + low as nat * weight);
            assert(limbs_value(source) == below_source + digit as nat * weight);
            assert(below + low as nat * weight + carry as nat * (0x1_0000_0000 * weight)
                == factor as nat * (below_source + digit as nat * weight)) by (nonlinear_arith)
                requires
                    below + carried * weight == factor as nat * below_source,
                    low as nat + carry as nat * 0x1_0000_0000 == digit as nat * factor as nat
                        + carried,
            ;
        }
        i += 1;
    }
    proof {
        assert(limbs@.take(count as int) =~= limbs@);
        assert(before.take(count as int) =~= before);
    }
    if carry > 0 {
        let ghost full = limbs@;
        limbs.push(carry as u32);
        proof {
            assert(limbs@.drop_last() =~= full);
        }
    }
}

/// The position of the leading binary digit of a non-zero digit.
fn leading_bit(limb: u32) -> (k: u32)
    requires
        limb > 0,
    ensures
        k < 32,
        pow2(k as nat) <= limb < pow2(k as nat + 1),
{
    let mut rest: u32 = limb;
    let mut k: u32 = 0;
    proof {
        lemma2_to64();
    }
    while rest > 1
        invariant
            k < 32,
            rest >= 1,
            rest * pow2(k as nat) <= limb < (rest + 1) * pow2(k as nat),
            limb < 0x1_0000_0000,
        decreases rest,
    {
        proof {
            let unit = pow2(k as nat);
            lemma2_to64();
            lemma_pow2_unfold(k as nat + 1);
            lemma_pow2_pos(k as nat);
            let half = (rest / 2) as nat;
            assert(half * (2 * unit) <= rest * unit && (rest + 1) * unit <= (half + 1) * (2
                * unit)) by (nonlinear_arith)
                requires
                    2 * half <= rest <= 2 * half + 1,
                    unit > 0,
            ;
            if k == 31 {
                assert(rest * unit >= 0x1_0000_0000) by (nonlinear_arith)
                    requires
                        rest >= 2,
                        unit == 0x8000_0000,
                ;
            }
        }
        rest = rest / 2;
        k = k + 1;
    }
    proof {
        lemma_pow2_unfold(k as nat + 1);
    }
    k
}

/// The binary logarithm, rounded down, of the positive number that `limbs` spell.
fn binary_log(limbs: &Vec<u32>) -> (k: u128)
    requires
        limbs_value(limbs@) >= 1,
    ensures
        k == log(2, limbs_value(limbs@) as int),
        k < 32 * limbs@.len(),
{
    let mut top: usize = limbs.len();
    proof {
        assert(limbs@.take(top as int) =~= limbs@);
    }
    while top > 0 && limbs[top - 1] == 0
        invariant
            top <= limbs@.len(),
            limbs_value(limbs@.take(top as int)) == limbs_value(limbs@),
        decreases top,
    {
        proof {
            let used = limbs@.take(top as int);
            assert(used.drop_last() =~= limbs@.take(top as int - 1));
            assert(used.last() == 0);
            assert(limbs_value(used) == limbs_value(used.drop_last()) + 0 * limb_weight(
                (used.len() - 1) as nat,
            ));
        }
        top = top - 1;
    }
    assert(top > 0) by {
        if top == 0 {
            assert(limbs@.take(0).len() == 0);
            assert(limbs_value(limbs@.take(0)) == 0);
        }
    }
    let k = leading_bit(limbs[top - 1]);
    let below: u128 = 32 * ((top - 1) as u128);
    proof {
        let used = limbs@.take(top as int);
        let rest = used.drop_last();
        let weight = limb_weight(rest.len());
        let digit = used.last() as nat;
        assert(digit == limbs@[top - 1]);
        assert(limbs_value(used) == limbs_value(rest) + digit * weight);
        limbs_value_bound(rest);
        lemma_pow2_adds(k as nat, 32 * rest.len());
        lemma_pow2_adds(k as nat + 1, 32 * rest.len());
        assert(pow2(k as nat) * weight <= digit * weight && (digit + 1) * weight <= pow2(
            k as nat + 1,
        ) * weight) by (nonlinear_arith)
            requires
                pow2(k as nat) <= digit,
                digit + 1 <= pow2(k as nat + 1),
        ;
        assert((digit + 1) * weight == digit * weight + weight) by (nonlinear_arith);
        assert(pow2(k as nat + 32 * rest.len()) == pow2(k as nat) * weight);
        assert(pow2(k as nat + 32 * rest.len() + 1) == pow2(k as nat + 1) * weight);
        log2_between(limbs_value(limbs@) as int, k as nat + 32 * rest.len());
    }
    below + k as u128
}

/// The binary logarithm, rounded down, of `base` to the power `exponent`,
/// computed on the exact power.
pub fn log2_of_power(base: u32, exponent: usize) -> (k: u128)
    ensures
        k == log(2, pow(base as int, exponent as nat)),
        k < 32 * (exponent + 1),
{
    if base == 0 {
        proof {
            if exponent == 0 {
                lemma_pow0(0);
            } else {
                lemma0_pow(exponent as nat);
            }
            lemma_log0(2, pow(0, exponent as nat));
        }
        return 0;
    }
    let mut limbs: Vec<u32> = Vec::new();
    limbs.push(1);
    proof {
        lemma2_to64();
        lemma_pow0(base as int);
        assert(limbs@.drop_last().len() == 0);
        assert(limbs_value(limbs@.drop_last()) == 0);
        assert(limbs_value(limbs@) == 1);
    }
    let mut i: usize = 0;
    while i < exponent
        invariant
            i <= exponent,
            base >= 1,
            limbs_value(limbs@) == pow(base as int, i as nat),
            limbs_value(limbs@) >= 1,
            limbs@.len() <= i + 1,
        decreases exponent - i,
    {
        let ghost value = limbs_value(limbs@);
        scale(&mut limbs, base);
        proof {
            lemma_pow_adds(base as int, i as nat, 1);
            lemma_pow1(base as int);
            assert(base as nat * value == pow(base as int, i as nat) * base as int)
                by (nonlinear_arith)
                requires
                    value == pow(base as int, i as nat),
            ;
            assert(base as nat * value >= 1) by (nonlinear_arith)
                requires
                    base >= 1,
                    value >= 1,
            ;
        }
        i += 1;
    }
    binary_log(&limbs)
}

} // verus!
