//! Which texts are numbers, and which of them are positive.
use vstd::arithmetic::power::{lemma_pow0, lemma_pow_adds, lemma_pow_positive, pow};
use vstd::prelude::*;

use crate::magnitude::{is_above, is_below};
use crate::parse::is_digit;
use crate::screen::options::{
    digit_run, fraction_digits, fraction_exponent, is_float, is_fraction, is_positive, is_single,
    unsigned_part,
};
use crate::text::decimal;
use crate::text_laws::law_decimal_digits;

verus! {

proof fn lemma_digit_run(value: Seq<char>)
    requires
        forall|i: int| 0 <= i < value.len() ==> is_digit(#[trigger] value[i]),
    ensures
        digit_run(value) == value.len(),
    decreases value.len(),
{
    if value.len() > 0 {
        let rest = value.skip(1);
        assert forall|i: int| 0 <= i < rest.len() implies is_digit(#[trigger] rest[i]) by {
            assert(rest[i] == value[i + 1]);
        }
        lemma_digit_run(rest);
    }
}

proof fn lemma_powers()
    ensures
        pow(2, 103) == 10_141_204_801_825_835_211_973_625_643_008,
        pow(2, 150) > 1,
{
    reveal_with_fuel(pow, 14);
    lemma_pow0(2);
    let small = pow(2, 13);
    assert(small == 8_192);
    lemma_pow_adds(2, 13, 13);
    let middle = pow(2, 26);
    assert(middle == 67_108_864) by (nonlinear_arith)
        requires
            middle == small * small,
            small == 8_192,
    ;
    lemma_pow_adds(2, 26, 26);
    let large = pow(2, 52);
    assert(large == 4_503_599_627_370_496) by (nonlinear_arith)
        requires
            large == middle * middle,
            middle == 67_108_864,
    ;
    lemma_pow_adds(2, 1, 51);
    lemma_pow_adds(2, 51, 52);
    let half = pow(2, 51);
    let whole = pow(2, 103);
    assert(pow(2, 1) == 2);
    assert(large == 2 * half);
    assert(whole == 10_141_204_801_825_835_211_973_625_643_008) by (nonlinear_arith)
        requires
            whole == half * large,
            half == 2_251_799_813_685_248,
            large == 4_503_599_627_370_496,
    ;
    lemma_pow_positive(2, 149);
    lemma_pow_adds(2, 1, 149);
}

/// A whole number in decimal is a number, and a positive one exactly if it is not
/// zero and below 2^128 - 2^103, from where single precision has only infinity.
/// With a minus it is a number that is not positive, with a plus it is the same.
pub proof fn law_whole_numbers(value: nat)
    ensures
        is_float(decimal(value)),
        is_positive(decimal(value)) <==> 0 < value
            < 340_282_356_779_733_661_637_539_395_458_142_568_448,
        is_float(seq!['-'] + decimal(value)),
        !is_positive(seq!['-'] + decimal(value)),
        is_positive(seq!['+'] + decimal(value)) <==> is_positive(decimal(value)),
{
    let text = decimal(value);
    law_decimal_digits(value);
    lemma_digit_run(text);
    assert(is_digit(text[0]));
    assert(unsigned_part(text) == text);
    assert(text.take(text.len() as int) =~= text);
    assert(text.skip(text.len() as int).len() == 0);
    assert(is_fraction(text));
    assert(fraction_digits(text) == text);
    assert(fraction_exponent(text) == 0);
    lemma_pow0(10);
    lemma_powers();
    let number = value as int;
    let unit = pow(2, 150);
    assert(number * unit * 1 > 1 <==> number > 0) by (nonlinear_arith)
        requires
            unit > 1,
            number >= 0,
    ;
    assert(is_above(number * unit, 0, 1) <==> number > 0);
    assert(is_below(number, 0, 33_554_431 * pow(2, 103)) <==> number
        < 340_282_356_779_733_661_637_539_395_458_142_568_448);
    assert(is_single(text) <==> 0 < value < 340_282_356_779_733_661_637_539_395_458_142_568_448);
    let minus = seq!['-'] + text;
    assert(minus.skip(1) =~= text);
    let plus = seq!['+'] + text;
    assert(plus.skip(1) =~= text);
}

/// An empty text is no number, and a positive number is a number.
pub proof fn law_positive_numbers_are_numbers(value: Seq<char>)
    ensures
        value.len() == 0 ==> !is_float(value),
        is_positive(value) ==> is_float(value) && value.len() > 0 && value[0] != '-',
{
}

} // verus!
