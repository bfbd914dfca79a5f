//! Where the first figure of a number below one stands.
//!
//! The number is written out as a long integer, in steps of two to the power of -1074 (see
//! `ieee`), and taken by ten until it reaches one.

use crate::ieee::{size, size_grows_with_encoding, HUNDRED, ONE, TEN};
use vstd::arithmetic::div_mod::lemma_fundamental_div_mod_converse;
use vstd::arithmetic::power::pow;
use vstd::arithmetic::power2::{
    lemma2_to64, lemma2_to64_rest, lemma_pow2_adds, lemma_pow2_pos, lemma_pow2_strictly_increases,
    lemma_pow2_unfold, pow2,
};
use vstd::prelude::*;

verus! {

/// The limbs of a long integer: this many digits to the base of two to the power of 32.
pub const LIMBS: usize = 34;

/// The integer that the limbs stand for, the lowest first.
pub open spec fn limbs_value(limbs: Seq<u32>) -> nat
    decreases limbs.len(),
{
    if limbs.len() == 0 {
        0
    } else {
        limbs_value(limbs.drop_last()) + limbs.last() as nat * pow2(
            (32 * (limbs.len() - 1)) as nat,
        )
    }
}

/// How often a size, counted in steps of two to the power of -1074, has to be taken by ten to
/// reach one; never for zero.
pub open spec fn tens_to_one(size: nat) -> nat
    decreases pow2(1074) - size,
{
    if size == 0 || size >= pow2(1074) {
        0
    } else if 10 * size >= pow2(1074) {
        1
    } else {
        1 + tens_to_one(10 * size)
    }
}

proof fn lemma_limbs_bound(limbs: Seq<u32>)
    ensures
        limbs_value(limbs) < pow2((32 * limbs.len()) as nat),
    decreases limbs.len(),
{
    lemma2_to64();
    if limbs.len() > 0 {
        lemma_limbs_bound(limbs.drop_last());
        let low = pow2((32 * (limbs.len() - 1)) as nat);
        let last = limbs.last() as nat;
        lemma_pow2_adds(32, (32 * (limbs.len() - 1)) as nat);
        assert(low + last * low <= 0x1_0000_0000 * low) by (nonlinear_arith)
            requires
                last + 1 <= 0x1_0000_0000,
        ;
    }
}

/// Takes a long integer by a small factor.
fn mul_small(limbs: &mut Vec<u32>, factor: u32)
    requires
        limbs_value(old(limbs)@) * factor < pow2((32 * old(limbs).len()) as nat),
    ensures
        final(limbs).len() == old(limbs).len(),
        limbs_value(final(limbs)@) == limbs_value(old(limbs)@) * factor,
{
    let ghost before = limbs@;
    let mut carry: u32 = 0;
    let mut i: usize = 0;
    assert(limbs_value(limbs@.take(0)) == 0 && limbs_value(before.take(0)) == 0);
    assert(0 * pow2(0) == 0 && 0 * factor == 0) by (nonlinear_arith);
    while i < limbs.len()
        invariant
            i <= limbs.len() == before.len(),
            forall|j: int| i <= j < before.len() ==> limbs[j] == before[j],
            limbs_value(limbs@.take(i as int)) + carry * pow2((32 * i) as nat) == limbs_value(
                before.take(i as int),
            ) * factor,
        decreases limbs.len() - i,
    {
        let digit: u32 = limbs[i];
        assert(digit * factor <= 0xFFFF_FFFF * 0xFFFF_FFFF) by (nonlinear_arith)
            requires
                digit <= 0xFFFF_FFFF,
                factor <= 0xFFFF_FFFF,
        ;
        let product: u64 = digit as u64 * factor as u64 + carry as u64;
        let low: u32 = (product % 0x1_0000_0000) as u32;
        let high: u32 = (product / 0x1_0000_0000) as u32;
        let ghost earlier = limbs@.take(i as int);
        let ghost old_carry = carry;
        limbs.set(i, low);
        carry = high;
        proof {
            let p = pow2((32 * i) as nat);
            lemma2_to64();
            lemma_pow2_adds(32, (32 * i) as nat);
            assert(pow2((32 * (i + 1)) as nat) == 0x1_0000_0000 * p);
            assert(limbs@.take(i + 1).drop_last() == earlier);
            assert(before.take(i + 1).drop_last() == before.take(i as int));
            let v = limbs_value(before.take(i as int));
            let w = limbs_value(earlier);
            assert(w + low * p + high * (0x1_0000_0000 * p) == (v + digit * p) * factor)
                by (nonlinear_arith)
                requires
                    w + old_carry * p == v * factor,
                    low + 0x1_0000_0000 * high == digit * factor + old_carry,
            ;
        }
        i += 1;
    }
    proof {
        assert(limbs@.take(i as int) == limbs@);
        assert(before.take(i as int) == before);
        let p = pow2((32 * i) as nat);
        assert(carry * p < p ==> carry == 0) by (nonlinear_arith);
    }
}

/// Whether a long integer of `LIMBS` limbs is at least two to the power of 1074.
fn reaches_one(limbs: &Vec<u32>) -> (res: bool)
    requires
        limbs.len() == LIMBS,
    ensures
        res == (limbs_value(limbs@) >= pow2(1074)),
{
    let top: u32 = limbs[33];
    proof {
        lemma_limbs_bound(limbs@.drop_last());
        lemma2_to64();
        lemma_pow2_adds(18, 1056);
        let p = pow2(1056);
        let low = limbs_value(limbs@.drop_last());
        assert(low < p);
        assert((low + top * p >= 0x4_0000 * p) == (top >= 0x4_0000)) by (nonlinear_arith)
            requires
                0 <= low < p,
        ;
    }
    top >= 0x4_0000
}

/// One is two to the power of 1074 steps, and smaller encodings are those of smaller numbers.
pub proof fn lemma_size_of_one(mag: u64)
    ensures
        mag < ONE ==> size(mag as nat, 52) < pow2(1074),
        mag >= ONE ==> size(mag as nat, 52) >= pow2(1074),
        mag > 0 ==> size(mag as nat, 52) > 0,
        mag == 0 ==> size(mag as nat, 52) == 0,
{
    lemma2_to64();
    lemma2_to64_rest();
    lemma_fundamental_div_mod_converse(ONE as int, pow2(52) as int, 1023, 0);
    lemma_pow2_adds(52, 1022);
    assert(size(ONE as nat, 52) == pow2(1074));
    if mag < ONE {
        size_grows_with_encoding(mag as nat, ONE as nat, 52);
    } else if mag > ONE {
        size_grows_with_encoding(ONE as nat, mag as nat, 52);
    }
    assert(size(0, 52) == 0);
    if mag > 0 {
        size_grows_with_encoding(0, mag as nat, 52);
    }
}

/// How often the number with this encoding, which has no sign, has to be taken by ten to reach
/// one.
pub fn count_tens(mag: u64) -> (res: usize)
    ensures
        res == tens_to_one(size(mag as nat, 52)),
        res <= 1074,
{
    proof {
        lemma_size_of_one(mag);
    }
    if mag == 0 || mag >= ONE {
        return 0;
    }
    let exponent: u64 = mag / 0x10_0000_0000_0000;
    let fraction: u64 = mag % 0x10_0000_0000_0000;
    let significand: u64 = if exponent == 0 {
        fraction
    } else {
        0x10_0000_0000_0000 + fraction
    };
    let doublings: u64 = if exponent == 0 {
        0
    } else {
        exponent - 1
    };
    let ghost whole = size(mag as nat, 52);
    proof {
        lemma2_to64();
        lemma2_to64_rest();
        assert(mag as nat / pow2(52) == exponent && mag as nat % pow2(52) == fraction);
        assert(significand * 1 == significand);
        assert(whole == significand * pow2(doublings as nat));
        lemma_pow2_strictly_increases(1074, 1088);
    }
    let mut limbs: Vec<u32> = Vec::with_capacity(LIMBS);
    limbs.push((significand % 0x1_0000_0000) as u32);
    limbs.push((significand / 0x1_0000_0000) as u32);
    proof {
        let low = limbs@.drop_last();
        assert(limbs_value(low.drop_last()) == 0);
        assert(limbs_value(low) == low[0] * pow2(0));
        assert(limbs_value(limbs@) == limbs_value(low) + limbs@[1] * pow2(32));
    }
    while limbs.len() < LIMBS
        invariant
            limbs.len() <= LIMBS,
            limbs_value(limbs@) == significand,
        decreases LIMBS - limbs.len(),
    {
        let ghost shorter = limbs@;
        limbs.push(0);
        proof {
            assert(limbs@.drop_last() == shorter);
            assert(0 * pow2((32 * (limbs.len() - 1)) as nat) == 0);
        }
    }
    let mut i: u64 = 0;
    assert(significand * pow2(0) == significand);
    while i < doublings
        invariant
            i <= doublings,
            limbs.len() == LIMBS,
            limbs_value(limbs@) == significand * pow2(i as nat),
            whole == significand * pow2(doublings as nat),
            whole < pow2(1074) < pow2(1088),
        decreases doublings - i,
    {
        proof {
            lemma_pow2_unfold((i + 1) as nat);
            if i + 1 < doublings {
                lemma_pow2_strictly_increases((i + 1) as nat, doublings as nat);
            }
            let (a, b) = (pow2(i as nat), pow2(doublings as nat));
            assert(significand * a * 2 <= significand * b) by (nonlinear_arith)
                requires
                    2 * a <= b,
            ;
            assert(significand * a * 2 == significand * (2 * a)) by (nonlinear_arith);
        }
        mul_small(&mut limbs, 2);
        i += 1;
    }
    let mut count: usize = 0;
    while !reaches_one(&limbs)
        invariant
            limbs.len() == LIMBS,
            pow2(1074) < pow2(1088),
            limbs_value(limbs@) >= pow2(count as nat),
            count <= 1074,
            count + tens_to_one(limbs_value(limbs@)) == tens_to_one(whole),
        decreases 1074 - count,
    {
        let ghost v = limbs_value(limbs@);
        proof {
            lemma_pow2_pos(count as nat);
            lemma2_to64();
            lemma_pow2_adds(14, 1074);
            lemma_pow2_unfold((count + 1) as nat);
        }
        mul_small(&mut limbs, 10);
        count += 1;
    }
    count
}

/// What `tens_to_one` counts: taken by so many tens, the number lies between one and ten.
pub proof fn tens_are_just_enough(size: nat)
    requires
        0 < size < pow2(1074),
    ensures
        0 < tens_to_one(size),
        pow2(1074) <= size * pow(10, tens_to_one(size)) < 10 * pow2(1074),
    decreases pow2(1074) - size,
{
    reveal(pow);
    let k = tens_to_one(size);
    assert(pow(10, k) == 10 * pow(10, (k - 1) as nat));
    if 10 * size >= pow2(1074) {
        assert(pow(10, 0) == 1);
    } else {
        tens_are_just_enough(10 * size);
        let p = pow(10, (k - 1) as nat);
        assert((10 * size) * p == size * (10 * p)) by (nonlinear_arith);
    }
}

/// Ten and a hundred, in steps of two to the power of -1074.
pub proof fn lemma_sizes_of_ten_and_hundred()
    ensures
        size(TEN as nat, 52) == 10 * pow2(1074),
        size(HUNDRED as nat, 52) == 100 * pow2(1074),
{
    lemma2_to64();
    lemma2_to64_rest();
    lemma_fundamental_div_mod_converse(
        TEN as int,
        pow2(52) as int,
        1026,
        5_629_499_534_213_120 - pow2(52),
    );
    lemma_fundamental_div_mod_converse(
        HUNDRED as int,
        pow2(52) as int,
        1029,
        7_036_874_417_766_400 - pow2(52),
    );
    lemma_pow2_adds(49, 1025);
    lemma_pow2_adds(46, 1028);
    let (a, b) = (pow2(1025), pow2(1028));
    assert(5_629_499_534_213_120 * a == 10 * (0x2_0000_0000_0000 * a)) by (nonlinear_arith);
    assert(7_036_874_417_766_400 * b == 100 * (0x4000_0000_0000 * b)) by (nonlinear_arith);
}

} // verus!
