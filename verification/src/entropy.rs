//! The entropy estimate: how many bits a password of a given length is worth
//! if each of its characters ranges over the whole alphabet, and the rating
//! that goes with that number.

use crate::error::Error;
use crate::pools::SET_SIZE;
use crate::power::log2_brackets;
use crate::power::log2_of_power;
use vstd::arithmetic::logarithm::log;
use vstd::arithmetic::power::lemma_pow_distributes;
use vstd::arithmetic::power::lemma_pow_positive;
use vstd::arithmetic::power::pow;
use vstd::arithmetic::power2::lemma_pow2_unfold;
use vstd::arithmetic::power2::pow2;
use vstd::prelude::*;
use vstd::string::StrSliceExecFns;

verus! {

/// The rating of a password by its bits of entropy.
#[derive(Debug, Clone, Copy, PartialEq, Eq, Structural)]
pub enum PasswordStrength {
    VeryWeak,
    Weak,
    Strong,
    VeryStrong,
}

/// An entropy estimate: the bits and the rating that they earn.
#[derive(Debug, Clone, Copy, PartialEq, Eq, Structural)]
pub struct Entropy {
    pub bits: u128,
    pub strength: PasswordStrength,
}

/// The fewest characters of a password that is given an estimate.
pub const MIN_LENGTH: usize = 16;

/// `value` lies in the range that starts at `begin` and stops before `end`.
pub open spec fn within(value: int, begin: int, end: int) -> bool {
    begin <= value < end
}

/// The rating that `bits` of entropy earn. The ranges leave out their upper
/// ends, so 35, 59, 119 and every count from 512 on fall into no range and
/// are rated as the weakest.
pub open spec fn strength_for(bits: int) -> PasswordStrength {
    if within(bits, 0, 35) {
        PasswordStrength::VeryWeak
    } else if within(bits, 36, 59) {
        PasswordStrength::Weak
    } else if within(bits, 60, 119) {
        PasswordStrength::Strong
    } else if within(bits, 120, 512) {
        PasswordStrength::VeryStrong
    } else {
        PasswordStrength::VeryWeak
    }
}

/// The integer nearest to the binary logarithm of `v`.
pub open spec fn round_log2(v: int) -> int {
    (log(2, v * v) + 1) / 2
}

/// The bits of entropy of a password of `length` characters: the binary
/// logarithm, rounded to the nearest integer, of the number of strings of
/// that length over an alphabet of `SET_SIZE` characters.
pub open spec fn entropy_bits(length: nat) -> int {
    round_log2(pow(SET_SIZE as int, length))
}

/// `round_log2(v)` is the one integer `b` whose distance from the binary
/// logarithm of `v` is at most one half: `2^(b - 1/2) <= v < 2^(b + 1/2)`,
/// stated here squared and doubled.
pub proof fn round_log2_is_nearest(v: int)
    requires
        1 <= v,
    ensures
        0 <= round_log2(v),
        pow2((2 * round_log2(v)) as nat) <= 2 * (v * v) < pow2((2 * round_log2(v) + 2) as nat),
{
    assert(1 <= v * v) by (nonlinear_arith)
        requires
            1 <= v,
    ;
    log2_brackets(v * v);
    let k = log(2, v * v) as nat;
    lemma_pow2_unfold(k + 1);
    lemma_pow2_unfold(k + 2);
    lemma_pow2_unfold(k + 3);
}

/// Tests whether `value` lies in the range that starts at `begin` and stops
/// before `end`.
pub fn in_range(value: u128, begin: u128, end: u128) -> (inside: bool)
    ensures
        inside == within(value as int, begin as int, end as int),
{
    value >= begin && value < end
}

/// Rates a number of bits of entropy.
pub fn rate(bits: u128) -> (strength: PasswordStrength)
    ensures
        strength == strength_for(bits as int),
{
    if in_range(bits, 0, 35) {
        PasswordStrength::VeryWeak
    } else if in_range(bits, 36, 59) {
        PasswordStrength::Weak
    } else if in_range(bits, 60, 119) {
        PasswordStrength::Strong
    } else if in_range(bits, 120, 512) {
        PasswordStrength::VeryStrong
    } else {
        PasswordStrength::VeryWeak
    }
}

/// The bits of entropy of a password of `length` characters, computed on the
/// exact power, whatever the length.
pub fn estimate_bits(length: usize) -> (bits: u128)
    ensures
        bits == entropy_bits(length as nat),
{
    let size: u32 = SET_SIZE as u32;
    let squared_size: u32 = size * size;
    assert(squared_size == SET_SIZE as int * SET_SIZE as int && squared_size >= 1)
        by (nonlinear_arith)
        requires
            size == SET_SIZE == 68,
            squared_size == size * size,
    ;
    let k = log2_of_power(squared_size, length);
    proof {
        lemma_pow_distributes(SET_SIZE as int, SET_SIZE as int, length as nat);
    }
    (k + 1) / 2
}

/// Estimates the entropy of `password`, which must have at least 16
/// characters.
pub fn check_entropy(password: String) -> (r: Result<Entropy, Error>)
    ensures
        r is Ok <==> password@.len() >= MIN_LENGTH,
        r matches Ok(entropy) ==> entropy.bits == entropy_bits(password@.len())
            && entropy.strength == strength_for(entropy.bits as int),
        r matches Err(e) ==> e == Error::TooShort,
{
    let password_length = password.as_str().unicode_len();
    if password_length >= MIN_LENGTH {
        let bits = estimate_bits(password_length);
        Ok(Entropy { bits, strength: rate(bits) })
    } else {
        Err(Error::TooShort)
    }
}

} // verus!
