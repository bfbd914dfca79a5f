//! The order of IEEE 754 numbers, worked out on their encodings.
//!
//! An encoding is an unsigned integer: a sign bit, an exponent and a fraction. Without its sign
//! bit it grows with the number that it encodes, so that encodings can be compared in place of
//! numbers. That this is so is proved here: the numbers themselves are modelled as integers,
//! counted in steps of the smallest positive number of the format, which makes the model exact.

use vstd::arithmetic::div_mod::{
    lemma_fundamental_div_mod, lemma_fundamental_div_mod_converse, lemma_mod_bound,
};
use vstd::arithmetic::mul::{lemma_mul_inequality, lemma_mul_strict_inequality};
use vstd::arithmetic::power2::{
    lemma2_to64, lemma2_to64_rest, lemma_pow2_adds, lemma_pow2_pos, lemma_pow2_strictly_increases,
    lemma_pow2_unfold, pow2,
};
use vstd::prelude::*;

verus! {

/// The encoding of the infinity of double precision, and of its sign bit alone.
pub const DOUBLE_INFINITY: u64 = 0x7FF0_0000_0000_0000;

pub const DOUBLE_SIGN: u64 = 0x8000_0000_0000_0000;

/// The same for single precision.
pub const SINGLE_INFINITY: u32 = 0x7F80_0000;

pub const SINGLE_SIGN: u32 = 0x8000_0000;

/// The size of the number with the encoding `mag`, its sign bit left out, in a format with
/// `fraction` bits of fraction. Infinity comes out larger than every finite number.
pub open spec fn size(mag: nat, fraction: nat) -> nat {
    let exponent = mag / pow2(fraction);
    let significand = mag % pow2(fraction);
    if exponent == 0 {
        significand
    } else {
        (pow2(fraction) + significand) * pow2((exponent - 1) as nat)
    }
}

/// A larger encoding is a larger number.
pub proof fn size_grows_with_encoding(a: nat, b: nat, fraction: nat)
    requires
        a < b,
    ensures
        size(a, fraction) < size(b, fraction),
{
    let one = pow2(fraction);
    lemma_pow2_pos(fraction);
    let (ea, sa) = (a / one, a % one);
    let (eb, sb) = (b / one, b % one);
    lemma_fundamental_div_mod(a as int, one as int);
    lemma_fundamental_div_mod(b as int, one as int);
    lemma_mod_bound(a as int, one as int);
    lemma_mod_bound(b as int, one as int);
    if ea > eb {
        lemma_mul_inequality((eb + 1) as int, ea as int, one as int);
        assert((eb + 1) * one == one * eb + one) by (nonlinear_arith);
        assert(ea * one == one * ea) by (nonlinear_arith);
    } else if ea == eb {
        if eb > 0 {
            lemma_pow2_pos((eb - 1) as nat);
            lemma_mul_strict_inequality(
                (one + sa) as int,
                (one + sb) as int,
                pow2((eb - 1) as nat) as int,
            );
        }
    } else {
        let scale = pow2((eb - 1) as nat);
        lemma_pow2_pos((eb - 1) as nat);
        lemma_mul_inequality(one as int, (one + sb) as int, scale as int);
        if ea == 0 {
            lemma_mul_inequality(1, scale as int, one as int);
            assert(scale * one == one * scale) by (nonlinear_arith);
        } else {
            let lower = pow2((ea - 1) as nat);
            lemma_pow2_pos((ea - 1) as nat);
            lemma_mul_strict_inequality((one + sa) as int, (2 * one) as int, lower as int);
            lemma_pow2_unfold(ea);
            if ea < eb - 1 {
                lemma_pow2_strictly_increases(ea, (eb - 1) as nat);
            }
            lemma_mul_inequality(pow2(ea) as int, scale as int, one as int);
            assert((2 * one) * lower == (2 * lower) * one) by (nonlinear_arith);
            assert(scale * one == one * scale) by (nonlinear_arith);
        }
    }
}

/// The encoding without its sign bit.
pub open spec fn double_magnitude(bits: u64) -> u64 {
    bits % DOUBLE_SIGN
}

pub open spec fn double_is_nan(bits: u64) -> bool {
    double_magnitude(bits) > DOUBLE_INFINITY
}

pub open spec fn double_is_finite(bits: u64) -> bool {
    double_magnitude(bits) < DOUBLE_INFINITY
}

/// The place of the number among all numbers: its encoding without the sign bit, counted down
/// for negative numbers. Both zeros have the same place.
pub open spec fn double_place(bits: u64) -> int {
    if bits >= DOUBLE_SIGN {
        -(double_magnitude(bits) as int)
    } else {
        double_magnitude(bits) as int
    }
}

/// The number, in steps of two to the power of -1074.
pub open spec fn double_value(bits: u64) -> int {
    if bits >= DOUBLE_SIGN {
        -(size(double_magnitude(bits) as nat, 52))
    } else {
        size(double_magnitude(bits) as nat, 52) as int
    }
}

/// Places are ordered as the numbers are.
pub proof fn double_places_follow_values(a: u64, b: u64)
    ensures
        double_place(a) < double_place(b) <==> double_value(a) < double_value(b),
        double_place(a) == double_place(b) <==> double_value(a) == double_value(b),
        double_place(a) == 0 <==> double_value(a) == 0,
{
    lemma_size_order(double_magnitude(a) as nat, double_magnitude(b) as nat, 52);
}

/// The first number is less than the second; no number is, and none is less than, a NaN.
pub open spec fn double_lt(a: u64, b: u64) -> bool {
    !double_is_nan(a) && !double_is_nan(b) && double_place(a) < double_place(b)
}

/// The first number is at most the second; that holds of no NaN.
pub open spec fn double_le(a: u64, b: u64) -> bool {
    !double_is_nan(a) && !double_is_nan(b) && double_place(a) <= double_place(b)
}

/// The encoding of the absolute value.
pub fn double_abs(bits: u64) -> (res: u64)
    ensures
        res == double_magnitude(bits),
        double_is_nan(res) == double_is_nan(bits),
        double_is_finite(res) == double_is_finite(bits),
        double_place(res) == if double_place(bits) < 0 {
            -double_place(bits)
        } else {
            double_place(bits)
        },
{
    bits % DOUBLE_SIGN
}

/// Compares two numbers of double precision by their encodings.
pub fn double_less(a: u64, b: u64) -> (res: bool)
    ensures
        res == double_lt(a, b),
{
    let ma: u64 = a % DOUBLE_SIGN;
    let mb: u64 = b % DOUBLE_SIGN;
    if ma > DOUBLE_INFINITY || mb > DOUBLE_INFINITY {
        false
    } else if a < DOUBLE_SIGN {
        b < DOUBLE_SIGN && ma < mb
    } else if b < DOUBLE_SIGN {
        ma != 0 || mb != 0
    } else {
        mb < ma
    }
}

/// Compares two numbers of double precision by their encodings, equal ones included.
pub fn double_at_most(a: u64, b: u64) -> (res: bool)
    ensures
        res == double_le(a, b),
{
    a % DOUBLE_SIGN <= DOUBLE_INFINITY && b % DOUBLE_SIGN <= DOUBLE_INFINITY && !double_less(b, a)
}

/// The encoding without its sign bit.
pub open spec fn single_magnitude(bits: u32) -> u32 {
    bits % SINGLE_SIGN
}

pub open spec fn single_is_nan(bits: u32) -> bool {
    single_magnitude(bits) > SINGLE_INFINITY
}

pub open spec fn single_is_finite(bits: u32) -> bool {
    single_magnitude(bits) < SINGLE_INFINITY
}

/// The place of the number among all numbers: its encoding without the sign bit, counted down
/// for negative numbers. Both zeros have the same place.
pub open spec fn single_place(bits: u32) -> int {
    if bits >= SINGLE_SIGN {
        -(single_magnitude(bits) as int)
    } else {
        single_magnitude(bits) as int
    }
}

/// The number, in steps of two to the power of -149.
pub open spec fn single_value(bits: u32) -> int {
    if bits >= SINGLE_SIGN {
        -(size(single_magnitude(bits) as nat, 23))
    } else {
        size(single_magnitude(bits) as nat, 23) as int
    }
}

/// Places are ordered as the numbers are.
pub proof fn single_places_follow_values(a: u32, b: u32)
    ensures
        single_place(a) < single_place(b) <==> single_value(a) < single_value(b),
        single_place(a) == single_place(b) <==> single_value(a) == single_value(b),
        single_place(a) == 0 <==> single_value(a) == 0,
{
    lemma_size_order(single_magnitude(a) as nat, single_magnitude(b) as nat, 23);
}

/// The first number is less than the second; no number is, and none is less than, a NaN.
pub open spec fn single_lt(a: u32, b: u32) -> bool {
    !single_is_nan(a) && !single_is_nan(b) && single_place(a) < single_place(b)
}

/// Whether the encoding is that of a finite number.
pub fn single_finite(bits: u32) -> (res: bool)
    ensures
        res == single_is_finite(bits),
{
    bits % SINGLE_SIGN < SINGLE_INFINITY
}

/// Compares two numbers of single precision by their encodings.
pub fn single_less(a: u32, b: u32) -> (res: bool)
    ensures
        res == single_lt(a, b),
{
    let ma: u32 = a % SINGLE_SIGN;
    let mb: u32 = b % SINGLE_SIGN;
    if ma > SINGLE_INFINITY || mb > SINGLE_INFINITY {
        false
    } else if a < SINGLE_SIGN {
        b < SINGLE_SIGN && ma < mb
    } else if b < SINGLE_SIGN {
        ma != 0 || mb != 0
    } else {
        mb < ma
    }
}

/// The order of encodings without a sign is that of the numbers, and zero is encoded as zero.
proof fn lemma_size_order(a: nat, b: nat, fraction: nat)
    ensures
        (a < b) == (size(a, fraction) < size(b, fraction)),
        (b < a) == (size(b, fraction) < size(a, fraction)),
        (a == 0) == (size(a, fraction) == 0),
        (b == 0) == (size(b, fraction) == 0),
{
    lemma_pow2_pos(fraction);
    if a < b {
        size_grows_with_encoding(a, b, fraction);
    } else if b < a {
        size_grows_with_encoding(b, a, fraction);
    }
    assert(size(0, fraction) == 0) by {
        lemma_fundamental_div_mod(0, pow2(fraction) as int);
        assert(0int / (pow2(fraction) as int) == 0) by (nonlinear_arith)
            requires
                pow2(fraction) > 0,
        ;
        assert(0int % (pow2(fraction) as int) == 0) by (nonlinear_arith)
            requires
                pow2(fraction) > 0,
        ;
    }
    if a > 0 {
        size_grows_with_encoding(0, a, fraction);
    }
    if b > 0 {
        size_grows_with_encoding(0, b, fraction);
    }
}

/// `bits` encodes the number of double precision that is nearest to `num / den`: the two differ
/// by no more than half of the last place.
pub open spec fn is_nearest_double(bits: u64, num: nat, den: nat) -> bool {
    let exponent = bits as nat / pow2(52);
    let error = double_value(bits) * den - num * pow2(1074);
    &&& 0 < exponent
    &&& double_is_finite(bits)
    &&& -(den * pow2((exponent - 1) as nat)) <= 2 * error <= den * pow2((exponent - 1) as nat)
}

/// Holds `bits`, taken apart into exponent and significand, against `num / den`.
proof fn lemma_is_nearest(bits: u64, exponent: nat, significand: nat, num: nat, den: nat)
    requires
        0 < exponent < 2047,
        exponent <= 1075,
        0 <= significand - pow2(52) < pow2(52),
        bits == exponent * pow2(52) + (significand - pow2(52)),
        -(den as int) <= 2 * (significand * den - num * pow2((1075 - exponent) as nat)) <= den,
    ensures
        is_nearest_double(bits, num, den),
{
    lemma2_to64_rest();
    let one = pow2(52);
    let f = significand - one;
    lemma_fundamental_div_mod_converse(bits as int, one as int, exponent as int, f);
    assert(bits < DOUBLE_INFINITY);
    let low = pow2((exponent - 1) as nat);
    let high = pow2((1075 - exponent) as nat);
    assert(double_value(bits) == significand * low);
    lemma_pow2_adds((1075 - exponent) as nat, (exponent - 1) as nat);
    assert(pow2(1074) == high * low);
    let error = double_value(bits) * den - num * pow2(1074);
    let e = significand * den - num * high;
    assert(error == e * low) by (nonlinear_arith)
        requires
            error == (significand * low) * den - num * (high * low),
            e == significand * den - num * high,
    ;
    assert(-(den * low) <= 2 * error <= den * low) by (nonlinear_arith)
        requires
            error == e * low,
            -(den as int) <= 2 * e <= den,
            low >= 0,
    ;
}

/// The numbers of double precision that the scope compares with and scales by: powers of ten,
/// from 10 to the power of 9 down to 10 to the power of -6.
pub const E9: u64 = 0x41CD_CD65_0000_0000;

pub const E6: u64 = 0x412E_8480_0000_0000;

pub const E3: u64 = 0x408F_4000_0000_0000;

pub const HUNDRED: u64 = 0x4059_0000_0000_0000;

pub const TEN: u64 = 0x4024_0000_0000_0000;

pub const ONE: u64 = 0x3FF0_0000_0000_0000;

pub const EM3: u64 = 0x3F50_624D_D2F1_A9FC;

pub const EM4: u64 = 0x3F1A_36E2_EB1C_432D;

pub const EM6: u64 = 0x3EB0_C6F7_A0B5_ED8D;

/// Each of the constants encodes the number nearest to the power of ten that it is named after.
pub proof fn constants_are_nearest_to_their_names()
    ensures
        is_nearest_double(E9, 1_000_000_000, 1),
        is_nearest_double(E6, 1_000_000, 1),
        is_nearest_double(E3, 1_000, 1),
        is_nearest_double(HUNDRED, 100, 1),
        is_nearest_double(TEN, 10, 1),
        is_nearest_double(ONE, 1, 1),
        is_nearest_double(EM3, 1, 1_000),
        is_nearest_double(EM4, 1, 10_000),
        is_nearest_double(EM6, 1, 1_000_000),
{
    lemma2_to64();
    lemma2_to64_rest();
    lemma_pow2_adds(64, 2);
    lemma_pow2_adds(64, 8);
    lemma_is_nearest(E9, 1052, 8_388_608_000_000_000, 1_000_000_000, 1);
    lemma_is_nearest(E6, 1042, 8_589_934_592_000_000, 1_000_000, 1);
    lemma_is_nearest(E3, 1032, 8_796_093_022_208_000, 1_000, 1);
    lemma_is_nearest(HUNDRED, 1029, 7_036_874_417_766_400, 100, 1);
    lemma_is_nearest(TEN, 1026, 5_629_499_534_213_120, 10, 1);
    lemma_is_nearest(ONE, 1023, 4_503_599_627_370_496, 1, 1);
    lemma_is_nearest(EM3, 1013, 4_611_686_018_427_388, 1, 1_000);
    lemma_is_nearest(EM4, 1009, 7_378_697_629_483_821, 1, 10_000);
    lemma_is_nearest(EM6, 1003, 4_722_366_482_869_645, 1, 1_000_000);
}

/// Of two numbers of double precision, one is less than the other exactly as their values are, and
/// a number whose encoding lies above that of infinity, the sign left out, compares with none. The
/// number is finite exactly if its encoding lies below that of infinity.
pub proof fn double_order_is_that_of_values(a: u64, b: u64)
    ensures
        ({
            let comparable = a % 0x8000_0000_0000_0000 <= 0x7FF0_0000_0000_0000 && b
                % 0x8000_0000_0000_0000 <= 0x7FF0_0000_0000_0000;
            &&& double_lt(a, b) <==> comparable && double_value(a) < double_value(b)
            &&& double_le(a, b) <==> comparable && double_value(a) <= double_value(b)
        }),
        double_is_nan(a) <==> a % 0x8000_0000_0000_0000 > 0x7FF0_0000_0000_0000,
        double_is_finite(a) <==> a % 0x8000_0000_0000_0000 < 0x7FF0_0000_0000_0000,
{
    double_places_follow_values(a, b);
}

/// The same for single precision.
pub proof fn single_order_is_that_of_values(a: u32, b: u32)
    ensures
        single_lt(a, b) <==> a % 0x8000_0000 <= 0x7F80_0000 && b % 0x8000_0000 <= 0x7F80_0000
            && single_value(a) < single_value(b),
        single_is_nan(a) <==> a % 0x8000_0000 > 0x7F80_0000,
        single_is_finite(a) <==> a % 0x8000_0000 < 0x7F80_0000,
{
    single_places_follow_values(a, b);
}

/// The sign turns a number into its negative, and the encoding without it is that of the absolute
/// value.
pub proof fn sign_negates(bits: u64, single: u32)
    requires
        bits < 0x8000_0000_0000_0000,
        single < 0x8000_0000,
    ensures
        double_value((bits + 0x8000_0000_0000_0000) as u64) == -double_value(bits),
        double_magnitude((bits + 0x8000_0000_0000_0000) as u64) == bits,
        double_magnitude(bits) == bits,
        double_value(bits) >= 0,
        single_value((single + 0x8000_0000) as u32) == -single_value(single),
        single_value(single) >= 0,
{
}

/// Neighbouring encodings below infinity are neighbouring numbers of the format: within one
/// exponent they lie two to the power of that exponent less one apart, in steps of the smallest
/// number; and the encoding that is zero but for its exponent lies where the exponent before it
/// leads. So each encoding has the value that the format gives it, up from zero.
pub proof fn neighbours_lie_one_step_apart(bits: u64, single: u32)
    requires
        bits < 0x7FF0_0000_0000_0000,
        single < 0x7F80_0000,
    ensures
        double_value(0) == 0,
        double_value((bits + 1) as u64) - double_value(bits) == pow2(
            if bits < 0x10_0000_0000_0000 {
                0
            } else {
                (bits / 0x10_0000_0000_0000 - 1) as nat
            },
        ),
        single_value(0) == 0,
        single_value((single + 1) as u32) - single_value(single) == pow2(
            if single < 0x80_0000 {
                0
            } else {
                (single / 0x80_0000 - 1) as nat
            },
        ),
{
    lemma2_to64();
    lemma2_to64_rest();
    lemma_size_step(bits as nat, 52);
    lemma_size_step(single as nat, 23);
    lemma_size_order(0, 0, 52);
    lemma_size_order(0, 0, 23);
}

/// How far the size of the next encoding lies.
proof fn lemma_size_step(mag: nat, fraction: nat)
    ensures
        size(mag + 1, fraction) - size(mag, fraction) == pow2(
            if mag / pow2(fraction) == 0 {
                0
            } else {
                (mag / pow2(fraction) - 1) as nat
            },
        ),
{
    let one = pow2(fraction);
    lemma_pow2_pos(fraction);
    lemma2_to64();
    let (e, s) = (mag / one, mag % one);
    lemma_fundamental_div_mod(mag as int, one as int);
    lemma_mod_bound(mag as int, one as int);
    let scale = pow2((if e == 0 { 0 } else { e - 1 }) as nat);
    if s + 1 < one {
        assert(mag + 1 == e * one + (s + 1)) by (nonlinear_arith)
            requires
                mag == one * e + s,
        ;
        lemma_fundamental_div_mod_converse((mag + 1) as int, one as int, e as int, (s + 1) as int);
        assert((one + s + 1) * scale == (one + s) * scale + scale) by (nonlinear_arith);
    } else {
        assert(mag + 1 == (e + 1) * one + 0) by (nonlinear_arith)
            requires
                mag == one * e + s,
                s + 1 == one,
        ;
        lemma_fundamental_div_mod_converse((mag + 1) as int, one as int, (e + 1) as int, 0);
        if e > 0 {
            lemma_pow2_unfold(e);
            assert(one * (2 * scale) == (one + s) * scale + scale) by (nonlinear_arith)
                requires
                    s + 1 == one,
            ;
        }
    }
}

} // verus!
