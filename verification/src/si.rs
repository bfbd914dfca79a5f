//! Numbers with an SI prefix, such as `1.23 ms` or `8.00 kHz`.
//!
//! A value comes as its encoding in double precision (see `ieee`). What stands here is the
//! choice of the prefix and of the decimals, and the text; scaling the value and printing its
//! digits is left to the caller.

use crate::figures::{
    count_tens, lemma_size_of_one, lemma_sizes_of_ten_and_hundred, tens_are_just_enough,
    tens_to_one,
};
use crate::ieee::{
    constants_are_nearest_to_their_names, double_abs, double_at_most, double_is_finite, double_le,
    double_lt, double_magnitude, double_place, is_nearest_double, size, size_grows_with_encoding,
    DOUBLE_INFINITY, DOUBLE_SIGN, E3, E6, E9, EM3, EM6, HUNDRED, ONE, TEN,
};
use vstd::arithmetic::power::pow;
use vstd::arithmetic::power2::{lemma_pow2_pos, pow2};
use vstd::prelude::*;
use vstd::string::*;

verus! {

/// The prefixes that are in use.
#[derive(Clone, Copy, Debug, PartialEq, Eq, Structural)]
pub enum SiPrefix {
    Mega,
    Kilo,
    One,
    Milli,
    Micro,
    Nano,
}

impl SiPrefix {
    /// The encoding of the factor that turns a value in the base unit into one with the prefix.
    pub open spec fn factor(self) -> u64 {
        match self {
            SiPrefix::Mega => EM6,
            SiPrefix::Kilo => EM3,
            SiPrefix::One => ONE,
            SiPrefix::Milli => E3,
            SiPrefix::Micro => E6,
            SiPrefix::Nano => E9,
        }
    }

    /// The letter of the prefix; none for the base unit.
    pub open spec fn letter(self) -> Seq<char> {
        match self {
            SiPrefix::Mega => seq!['M'],
            SiPrefix::Kilo => seq!['k'],
            SiPrefix::One => seq![],
            SiPrefix::Milli => seq!['m'],
            SiPrefix::Micro => seq!['\u{03BC}'],
            SiPrefix::Nano => seq!['n'],
        }
    }

    /// The encoding of the factor that turns a value in the base unit into one with the prefix.
    pub fn scale(&self) -> (res: u64)
        ensures
            res == self.factor(),
    {
        match self {
            SiPrefix::Mega => EM6,
            SiPrefix::Kilo => EM3,
            SiPrefix::One => ONE,
            SiPrefix::Milli => E3,
            SiPrefix::Micro => E6,
            SiPrefix::Nano => E9,
        }
    }

    /// The letter of the prefix; none for the base unit.
    pub fn symbol(&self) -> (res: &'static str)
        ensures
            res@ == self.letter(),
    {
        proof {
            reveal_strlit("M");
            reveal_strlit("k");
            reveal_strlit("");
            reveal_strlit("m");
            reveal_strlit("\u{03BC}");
            reveal_strlit("n");
        }
        match self {
            SiPrefix::Mega => "M",
            SiPrefix::Kilo => "k",
            SiPrefix::One => "",
            SiPrefix::Milli => "m",
            SiPrefix::Micro => "\u{03BC}",
            SiPrefix::Nano => "n",
        }
    }
}

/// How a value is written.
#[derive(Clone, Copy, Debug, PartialEq, Eq, Structural)]
pub enum SiForm {
    /// The value is no finite number: a dash stands for it.
    Dash,
    /// The value is zero: it needs no prefix.
    Zero,
    /// The value is scaled to this prefix.
    Scaled(SiPrefix),
}

/// The prefix for a finite value of this size: the largest that leaves at least one before the
/// decimal point, and `Nano` for all that is smaller.
pub open spec fn prefix_for(size: u64) -> SiPrefix {
    if double_le(E6, size) {
        SiPrefix::Mega
    } else if double_le(E3, size) {
        SiPrefix::Kilo
    } else if double_le(ONE, size) {
        SiPrefix::One
    } else if double_le(EM3, size) {
        SiPrefix::Milli
    } else if double_le(EM6, size) {
        SiPrefix::Micro
    } else {
        SiPrefix::Nano
    }
}

/// How the value with this encoding is written.
pub open spec fn form_of(value: u64) -> SiForm {
    if !double_is_finite(value) {
        SiForm::Dash
    } else if double_place(value) == 0 {
        SiForm::Zero
    } else {
        SiForm::Scaled(prefix_for(double_magnitude(value)))
    }
}

/// How the value with this encoding is written.
pub fn si_form(value: u64) -> (res: SiForm)
    ensures
        res == form_of(value),
{
    let size: u64 = double_abs(value);
    if size >= DOUBLE_INFINITY {
        return SiForm::Dash;
    }
    if size == 0 {
        return SiForm::Zero;
    }
    SiForm::Scaled(
        if double_at_most(E6, size) {
            SiPrefix::Mega
        } else if double_at_most(E3, size) {
            SiPrefix::Kilo
        } else if double_at_most(ONE, size) {
            SiPrefix::One
        } else if double_at_most(EM3, size) {
            SiPrefix::Milli
        } else if double_at_most(EM6, size) {
            SiPrefix::Micro
        } else {
            SiPrefix::Nano
        },
    )
}

/// The number of decimals for a scaled value: about three significant figures, as in `123`,
/// `12.3`, `1.23`, `0.123` and `0.0123`. Zero and what is no number get two.
pub open spec fn decimals_for(scaled: u64) -> nat {
    let mag = double_magnitude(scaled);
    if double_le(HUNDRED, mag) {
        0
    } else if double_le(TEN, mag) {
        1
    } else if 0 < mag < ONE {
        2 + tens_to_one(size(mag as nat, 52))
    } else {
        2
    }
}

/// The number of decimals for a scaled value.
pub fn si_decimals(scaled: u64) -> (res: usize)
    ensures
        res == decimals_for(scaled),
{
    let mag: u64 = double_abs(scaled);
    if double_at_most(HUNDRED, mag) {
        0
    } else if double_at_most(TEN, mag) {
        1
    } else if 0 < mag && mag < ONE {
        2 + count_tens(mag)
    } else {
        2
    }
}

/// A number below one keeps three figures, however small it is: the first that is not zero is
/// two places before the last decimal. (`size` counts in steps of two to the power of -1074.)
pub proof fn three_figures_below_one(scaled: u64)
    requires
        0 < double_magnitude(scaled) < ONE,
    ensures
        decimals_for(scaled) >= 3,
        pow2(1074) <= size(double_magnitude(scaled) as nat, 52) * pow(
            10,
            (decimals_for(scaled) - 2) as nat,
        ) < 10 * pow2(1074),
{
    lemma_size_of_one(double_magnitude(scaled));
    tens_are_just_enough(size(double_magnitude(scaled) as nat, 52));
}

/// The text for a value: `number` are the digits of the scaled value.
pub open spec fn si_text(form: SiForm, number: Seq<char>, unit: Seq<char>) -> Seq<char> {
    match form {
        SiForm::Dash => seq!['\u{2014}', ' '] + unit,
        SiForm::Zero => seq!['0', ' '] + unit,
        SiForm::Scaled(prefix) => number + seq![' '] + prefix.letter() + unit,
    }
}

/// Writes a value of the given form with its unit. `number` are the digits of the scaled value;
/// only a scaled value needs them.
pub fn fmt_si(form: SiForm, number: &str, unit: &str) -> (res: String)
    ensures
        res@ == si_text(form, number@, unit@),
{
    proof {
        reveal_strlit("\u{2014} ");
        reveal_strlit("0 ");
        reveal_strlit(" ");
    }
    match form {
        SiForm::Dash => {
            let res = String::from_str("\u{2014} ").concat(unit);
            assert(res@ == si_text(form, number@, unit@));
            res
        },
        SiForm::Zero => {
            let res = String::from_str("0 ").concat(unit);
            assert(res@ == si_text(form, number@, unit@));
            res
        },
        SiForm::Scaled(prefix) => {
            let mut res = String::from_str(number);
            res.append(" ");
            res.append(prefix.symbol());
            res.append(unit);
            assert(res@ == si_text(form, number@, unit@));
            res
        },
    }
}

/// The smallest size that a prefix is meant for, and the one from which on the next takes over.
pub open spec fn prefix_span(prefix: SiPrefix) -> (u64, u64) {
    match prefix {
        SiPrefix::Mega => (E6, DOUBLE_INFINITY),
        SiPrefix::Kilo => (E3, E6),
        SiPrefix::One => (ONE, E3),
        SiPrefix::Milli => (EM3, ONE),
        SiPrefix::Micro => (EM6, EM3),
        SiPrefix::Nano => (0, EM6),
    }
}

/// A value that is scaled lies in the span of its prefix.
pub proof fn prefix_fits_the_value(value: u64)
    ensures
        form_of(value) matches SiForm::Scaled(prefix) ==> {
            let (from, to) = prefix_span(prefix);
            let size = double_magnitude(value);
            double_le(from, size) && double_lt(size, to)
        },
{
}

/// A value and its negative are written in the same form and with the same decimals.
pub proof fn sign_makes_no_difference(value: u64)
    requires
        value < DOUBLE_SIGN,
    ensures
        form_of((value + DOUBLE_SIGN) as u64) == form_of(value),
        decimals_for((value + DOUBLE_SIGN) as u64) == decimals_for(value),
{
}

/// A value is written as zero exactly if it is zero, of either sign, and as a dash exactly if it
/// is infinite or no number; every other value is scaled.
pub proof fn only_zero_is_written_as_zero(value: u64)
    ensures
        form_of(value) is Zero <==> value % 0x8000_0000_0000_0000 == 0,
        form_of(value) is Dash <==> value % 0x8000_0000_0000_0000 >= 0x7FF0_0000_0000_0000,
        form_of(value) is Scaled <==> 0 < value % 0x8000_0000_0000_0000 < 0x7FF0_0000_0000_0000,
{
}

/// The prefix of a value changes at a million, a thousand, one, a thousandth and a millionth, and
/// nowhere else.
pub proof fn prefixes_change_at_powers_of_a_thousand(value: u64)
    requires
        0 < value % 0x8000_0000_0000_0000 < 0x7FF0_0000_0000_0000,
    ensures
        ({
            let form = form_of(value);
            let mag = (value % 0x8000_0000_0000_0000) as u64;
            &&& form == SiForm::Scaled(SiPrefix::Mega) <==> double_le(E6, mag)
            &&& form == SiForm::Scaled(SiPrefix::Kilo) <==> double_le(E3, mag) && double_lt(mag, E6)
            &&& form == SiForm::Scaled(SiPrefix::One) <==> double_le(ONE, mag) && double_lt(mag, E3)
            &&& form == SiForm::Scaled(SiPrefix::Milli) <==> double_le(EM3, mag) && double_lt(
                mag,
                ONE,
            )
            &&& form == SiForm::Scaled(SiPrefix::Micro) <==> double_le(EM6, mag) && double_lt(
                mag,
                EM3,
            )
            &&& form == SiForm::Scaled(SiPrefix::Nano) <==> double_lt(mag, EM6)
        }),
{
}

/// The factor of each prefix undoes what its letter says: M stands for a million, and the value
/// is scaled by the number nearest to a millionth; and so on.
pub proof fn factors_undo_the_letters()
    ensures
        SiPrefix::Mega.letter() == seq!['M'],
        is_nearest_double(SiPrefix::Mega.factor(), 1, 1_000_000),
        SiPrefix::Kilo.letter() == seq!['k'],
        is_nearest_double(SiPrefix::Kilo.factor(), 1, 1_000),
        SiPrefix::One.letter() == Seq::<char>::empty(),
        is_nearest_double(SiPrefix::One.factor(), 1, 1),
        SiPrefix::Milli.letter() == seq!['m'],
        is_nearest_double(SiPrefix::Milli.factor(), 1_000, 1),
        SiPrefix::Micro.letter() == seq!['\u{03BC}'],
        is_nearest_double(SiPrefix::Micro.factor(), 1_000_000, 1),
        SiPrefix::Nano.letter() == seq!['n'],
        is_nearest_double(SiPrefix::Nano.factor(), 1_000_000_000, 1),
{
    constants_are_nearest_to_their_names();
}

/// A number that is not zero and below a thousand is written with three figures: with its
/// decimals taken before the point it lies from a hundred to below a thousand. (`size` counts in
/// steps of two to the power of -1074.)
pub proof fn three_figures_below_a_thousand(scaled: u64)
    requires
        0 < size((scaled % 0x8000_0000_0000_0000) as nat, 52) < 1_000 * pow2(1074),
        scaled % 0x8000_0000_0000_0000 < 0x7FF0_0000_0000_0000,
    ensures
        100 * pow2(1074) <= size((scaled % 0x8000_0000_0000_0000) as nat, 52) * pow(
            10,
            decimals_for(scaled),
        ) < 1_000 * pow2(1074),
{
    let mag = double_magnitude(scaled);
    let v = size(mag as nat, 52);
    let d = decimals_for(scaled);
    lemma_size_of_one(mag);
    lemma_sizes_of_ten_and_hundred();
    reveal_with_fuel(pow, 3);
    if mag < HUNDRED {
        size_grows_with_encoding(mag as nat, HUNDRED as nat, 52);
    } else if mag > HUNDRED {
        size_grows_with_encoding(HUNDRED as nat, mag as nat, 52);
    }
    if mag < TEN {
        size_grows_with_encoding(mag as nat, TEN as nat, 52);
    } else if mag > TEN {
        size_grows_with_encoding(TEN as nat, mag as nat, 52);
    }
    assert(pow(10, 0) == 1 && pow(10, 1) == 10 && pow(10, 2) == 100);
    if mag < ONE {
        three_figures_below_one(scaled);
        let p = pow(10, (d - 2) as nat);
        assert(pow(10, d) == 10 * pow(10, (d - 1) as nat));
        assert(pow(10, (d - 1) as nat) == 10 * p);
        assert(v * (10 * (10 * p)) == 100 * (v * p)) by (nonlinear_arith);
    }
}

/// From a thousand on there are no decimals. Zero gets two, and so does what is no number.
pub proof fn large_numbers_have_no_decimals(scaled: u64)
    ensures
        1_000 * pow2(1074) <= size((scaled % 0x8000_0000_0000_0000) as nat, 52) && scaled
            % 0x8000_0000_0000_0000 <= 0x7FF0_0000_0000_0000 ==> decimals_for(scaled) == 0,
        scaled % 0x8000_0000_0000_0000 == 0 ==> decimals_for(scaled) == 2,
        scaled % 0x8000_0000_0000_0000 > 0x7FF0_0000_0000_0000 ==> decimals_for(scaled) == 2,
{
    let mag = double_magnitude(scaled);
    lemma_sizes_of_ten_and_hundred();
    lemma_pow2_pos(1074);
    if mag < HUNDRED {
        size_grows_with_encoding(mag as nat, HUNDRED as nat, 52);
    }
}

/// A scaled value is written with its digits first and its unit last, and with a space and the
/// letter of the prefix between them. A dash or a zero stands in place of the digits of any other,
/// which has no prefix.
pub proof fn text_holds_digits_prefix_and_unit(form: SiForm, number: Seq<char>, unit: Seq<char>)
    ensures
        ({
            let text = si_text(form, number, unit);
            let k = number.len() as int;
            &&& form is Zero ==> text.len() == 2 + unit.len() && text[0] == '0' && text[1] == ' '
                && text.skip(2) == unit
            &&& form is Dash ==> text.len() == 2 + unit.len() && text[0] == '\u{2014}' && text[1]
                == ' ' && text.skip(2) == unit
            &&& form matches SiForm::Scaled(prefix) ==> {
                &&& text.take(k) == number
                &&& text[k] == ' '
                &&& prefix is One ==> text.skip(k + 1) == unit
                &&& !(prefix is One) ==> text.skip(k + 2) == unit
                &&& prefix is Mega ==> text[k + 1] == 'M'
                &&& prefix is Kilo ==> text[k + 1] == 'k'
                &&& prefix is Milli ==> text[k + 1] == 'm'
                &&& prefix is Micro ==> text[k + 1] == '\u{03BC}'
                &&& prefix is Nano ==> text[k + 1] == 'n'
                &&& text.len() == k + 1 + unit.len() + if prefix is One {
                    0int
                } else {
                    1
                }
            }
        }),
{
    let text = si_text(form, number, unit);
    let k = number.len() as int;
    match form {
        SiForm::Scaled(prefix) => {
            assert(text.take(k) == number);
            assert(text.skip(k + 1) == prefix.letter() + unit);
            if prefix is One {
                assert(text.skip(k + 1) == unit);
            } else {
                assert(text.skip(k + 2) == unit);
            }
        },
        _ => {
            assert(text.skip(2) == unit);
        },
    }
}

/// Different digits make different texts, and so do different prefixes before the same digits and
/// unit.
pub proof fn texts_differ_as_values_do(
    a: SiPrefix,
    b: SiPrefix,
    number: Seq<char>,
    other: Seq<char>,
    unit: Seq<char>,
)
    ensures
        si_text(SiForm::Scaled(a), number, unit) == si_text(SiForm::Scaled(a), other, unit)
            ==> number == other,
        si_text(SiForm::Scaled(a), number, unit) == si_text(SiForm::Scaled(b), number, unit)
            ==> a == b,
{
    text_holds_digits_prefix_and_unit(SiForm::Scaled(a), number, unit);
    text_holds_digits_prefix_and_unit(SiForm::Scaled(a), other, unit);
    text_holds_digits_prefix_and_unit(SiForm::Scaled(b), number, unit);
}

} // verus!
