//! Exact comparison of decimal numbers of any length with whole numbers.
use vstd::arithmetic::power::{
    lemma_pow0, lemma_pow1, lemma_pow_adds, lemma_pow_increases, lemma_pow_positive, pow,
};
use vstd::prelude::*;

use crate::parse::{digits_value, is_digit};

verus! {

/// Whether `number` times ten to the power of `exponent` is above `bound`.
pub open spec fn is_above(number: int, exponent: int, bound: int) -> bool {
    if exponent >= 0 {
        number * pow(10, exponent as nat) > bound
    } else {
        number > bound * pow(10, (-exponent) as nat)
    }
}

/// Whether `number` times ten to the power of `exponent` is below `bound`.
pub open spec fn is_below(number: int, exponent: int, bound: int) -> bool {
    if exponent >= 0 {
        number * pow(10, exponent as nat) < bound
    } else {
        number < bound * pow(10, (-exponent) as nat)
    }
}

/// The number that digits write, the last of them the most significant.
pub open spec fn value_of(digits: Seq<u8>) -> int
    decreases digits.len(),
{
    if digits.len() == 0 {
        0
    } else {
        value_of(digits.drop_last()) + digits.last() * pow(10, (digits.len() - 1) as nat)
    }
}

/// Whether all digits are decimal.
pub open spec fn are_digits(digits: Seq<u8>) -> bool {
    forall|i: int| 0 <= i < digits.len() ==> #[trigger] digits[i] <= 9
}

/// Whether the digits have no zeros in front.
pub open spec fn is_trimmed(digits: Seq<u8>) -> bool {
    are_digits(digits) && (digits.len() > 0 ==> digits.last() != 0)
}

/// Where a number lies.
#[derive(Clone, Copy, Debug, PartialEq, Eq, Structural)]
pub enum Side {
    Below,
    Equal,
    Above,
}

/// Beyond this exponent the digits of a number do not matter.
pub const FAR: i128 = 0x20_0000_0000_0000_0000;

/// Whether one exponent can stand for another: they are equal, or both are far
/// out on the same side.
pub open spec fn stands_for(exponent: int, other: int) -> bool {
    ||| exponent == other
    ||| exponent > FAR && other > FAR
    ||| exponent < -FAR && other < -FAR
}

proof fn lemma_tens(n: nat)
    ensures
        pow(10, n) > 0,
        pow(10, n + 1) == 10 * pow(10, n),
{
    lemma_pow_positive(10, n);
    lemma_pow_adds(10, 1, n);
    lemma_pow1(10);
}

proof fn lemma_push(digits: Seq<u8>, digit: u8)
    ensures
        value_of(digits.push(digit)) == value_of(digits) + digit * pow(10, digits.len()),
{
    assert(digits.push(digit).drop_last() =~= digits);
}

/// A number has as many digits as its powers of ten say.
proof fn lemma_bounds(digits: Seq<u8>)
    requires
        are_digits(digits),
    ensures
        0 <= value_of(digits) < pow(10, digits.len()),
        digits.len() > 0 && digits.last() != 0 ==> value_of(digits) >= pow(10, (digits.len() - 1) as nat),
    decreases digits.len(),
{
    if digits.len() == 0 {
        lemma_pow0(10);
    } else {
        let head = digits.drop_last();
        assert forall|i: int| 0 <= i < head.len() implies #[trigger] head[i] <= 9 by {
            assert(head[i] == digits[i]);
        }
        lemma_bounds(head);
        lemma_tens(head.len());
        let unit = pow(10, head.len());
        let last = digits[digits.len() - 1] as int;
        assert(0 <= last * unit <= 9 * unit) by (nonlinear_arith)
            requires
                0 <= last <= 9,
                0 < unit,
        ;
        assert(last >= 1 ==> last * unit >= unit) by (nonlinear_arith)
            requires
                0 < unit,
        ;
    }
}

/// Digits without zeros in front write a positive number, unless there are none.
pub(crate) proof fn lemma_trimmed_positive(digits: Seq<u8>)
    requires
        is_trimmed(digits),
    ensures
        digits.len() > 0 <==> value_of(digits) > 0,
{
    lemma_bounds(digits);
    if digits.len() > 0 {
        lemma_tens((digits.len() - 1) as nat);
    }
}

/// Digits behind zeros are multiplied by a power of ten.
proof fn lemma_shift(zeros: Seq<u8>, digits: Seq<u8>)
    requires
        forall|i: int| 0 <= i < zeros.len() ==> #[trigger] zeros[i] == 0,
    ensures
        value_of(zeros + digits) == value_of(digits) * pow(10, zeros.len()),
    decreases digits.len() + zeros.len(),
{
    let unit = pow(10, zeros.len());
    if digits.len() == 0 {
        assert(zeros + digits =~= zeros);
        if zeros.len() > 0 {
            let fewer = zeros.drop_last();
            assert forall|i: int| 0 <= i < fewer.len() implies #[trigger] fewer[i] == 0 by {
                assert(fewer[i] == zeros[i]);
            }
            lemma_shift(fewer, digits);
            assert(fewer + digits =~= fewer);
            assert(zeros[zeros.len() - 1] == 0);
            let place = pow(10, (zeros.len() - 1) as nat);
            assert(0 * place == 0) by (nonlinear_arith);
            let less = pow(10, fewer.len());
            assert(0 * less == 0) by (nonlinear_arith);
        }
        assert(0 * unit == 0) by (nonlinear_arith);
    } else {
        let head = digits.drop_last();
        lemma_shift(zeros, head);
        assert((zeros + digits).drop_last() =~= zeros + head);
        lemma_pow_adds(10, head.len(), zeros.len());
        let place = pow(10, head.len());
        let last = digits.last() as int;
        let front = value_of(head);
        assert(front * unit + last * (place * unit) == (front + last * place) * unit) by (nonlinear_arith);
    }
}

/// The first place from above in which digits differ decides.
proof fn lemma_top(larger: Seq<u8>, smaller: Seq<u8>, place: int)
    requires
        larger.len() == smaller.len(),
        are_digits(larger),
        are_digits(smaller),
        0 <= place < larger.len(),
        larger[place] > smaller[place],
        forall|k: int| place < k < larger.len() ==> #[trigger] larger[k] == smaller[k],
    ensures
        value_of(larger) > value_of(smaller),
    decreases larger.len(),
{
    let one = larger.drop_last();
    let other = smaller.drop_last();
    assert forall|i: int| 0 <= i < one.len() implies #[trigger] one[i] <= 9 && other[i] <= 9 by {
        assert(one[i] == larger[i]);
        assert(other[i] == smaller[i]);
    }
    assert(are_digits(other)) by {
        assert forall|i: int| 0 <= i < other.len() implies #[trigger] other[i] <= 9 by {
            assert(one[i] <= 9);
        }
    }
    let last = larger.len() - 1;
    if place == last {
        lemma_bounds(one);
        lemma_bounds(other);
        let unit = pow(10, one.len());
        let a = larger[last] as int;
        let c = smaller[last] as int;
        assert(a * unit >= c * unit + unit) by (nonlinear_arith)
            requires
                a >= c + 1,
                0 < unit,
        ;
    } else {
        assert(larger[last] == smaller[last]);
        assert forall|k: int| place < k < one.len() implies #[trigger] one[k] == other[k] by {
            assert(one[k] == larger[k]);
            assert(other[k] == smaller[k]);
        }
        lemma_top(one, other, place);
    }
}

/// A number with more digits before the point than the bound is above it.
proof fn lemma_longer(number: int, len: nat, exponent: int, bound: int, bound_len: nat)
    requires
        len > 0,
        number >= pow(10, (len - 1) as nat),
        0 <= bound < pow(10, bound_len),
        len + exponent > bound_len,
    ensures
        is_above(number, exponent, bound),
        !is_below(number, exponent, bound),
{
    lemma_tens((len - 1) as nat);
    if exponent >= 0 {
        let e = exponent as nat;
        lemma_tens(e);
        lemma_pow_adds(10, (len - 1) as nat, e);
        lemma_pow_increases(10, bound_len, (len - 1 + e) as nat);
        let unit = pow(10, e);
        let least = pow(10, (len - 1) as nat);
        assert(number * unit >= least * unit) by (nonlinear_arith)
            requires
                number >= least,
                unit > 0,
        ;
    } else {
        let e = (-exponent) as nat;
        lemma_tens(e);
        lemma_pow_adds(10, bound_len, e);
        lemma_pow_increases(10, bound_len + e, (len - 1) as nat);
        let unit = pow(10, e);
        let most = pow(10, bound_len);
        assert(bound * unit < most * unit) by (nonlinear_arith)
            requires
                bound < most,
                unit > 0,
        ;
    }
}

/// A number with fewer digits before the point than the bound is below it.
proof fn lemma_shorter(number: int, len: nat, exponent: int, bound: int, bound_len: nat)
    requires
        bound_len > 0,
        0 <= number < pow(10, len),
        bound >= pow(10, (bound_len - 1) as nat),
        len + exponent < bound_len,
    ensures
        is_below(number, exponent, bound),
        !is_above(number, exponent, bound),
{
    lemma_tens((bound_len - 1) as nat);
    if exponent >= 0 {
        let e = exponent as nat;
        lemma_tens(e);
        lemma_pow_adds(10, len, e);
        lemma_pow_increases(10, len + e, (bound_len - 1) as nat);
        let unit = pow(10, e);
        let most = pow(10, len);
        assert(number * unit < most * unit) by (nonlinear_arith)
            requires
                number < most,
                unit > 0,
        ;
    } else {
        let e = (-exponent) as nat;
        lemma_tens(e);
        lemma_pow_adds(10, (bound_len - 1) as nat, e);
        lemma_pow_increases(10, len, (bound_len - 1 + e) as nat);
        let unit = pow(10, e);
        let least = pow(10, (bound_len - 1) as nat);
        assert(bound * unit >= least * unit) by (nonlinear_arith)
            requires
                bound >= least,
                unit > 0,
        ;
    }
}

// ---------------------------------------------------------------------------
// Digits
// ---------------------------------------------------------------------------

/// The digits of a number.
pub(crate) fn digits_of(number: u64) -> (digits: Vec<u8>)
    ensures
        is_trimmed(digits@),
        value_of(digits@) == number,
{
    let mut digits: Vec<u8> = Vec::new();
    let mut rest: u64 = number;
    proof {
        lemma_pow0(10);
    }
    while rest > 0
        invariant
            are_digits(digits@),
            value_of(digits@) + rest * pow(10, digits@.len()) == number,
            rest == 0 ==> is_trimmed(digits@),
        decreases rest,
    {
        let digit: u8 = (rest % 10) as u8;
        let ghost before = digits@;
        let ghost unit = pow(10, before.len());
        digits.push(digit);
        proof {
            lemma_push(before, digit);
            lemma_tens(before.len());
            let more = rest as int / 10;
            assert(rest == more * 10 + digit);
            assert((more * 10 + digit) * unit == more * (10 * unit) + digit * unit) by (nonlinear_arith);
        }
        rest = rest / 10;
    }
    proof {
        let unit = pow(10, digits@.len());
        assert(0 * unit == 0) by (nonlinear_arith);
    }
    digits
}

fn doubled(digits: &Vec<u8>) -> (out: Vec<u8>)
    requires
        is_trimmed(digits@),
    ensures
        is_trimmed(out@),
        value_of(out@) == 2 * value_of(digits@),
{
    let mut out: Vec<u8> = Vec::new();
    let mut carry: u8 = 0;
    let mut i: usize = 0;
    assert(digits@.take(0) =~= seq![]);
    proof {
        lemma_pow0(10);
    }
    while i < digits.len()
        invariant
            i <= digits.len(),
            is_trimmed(digits@),
            are_digits(out@),
            out@.len() == i,
            carry <= 1,
            value_of(out@) + carry * pow(10, i as nat) == 2 * value_of(digits@.take(i as int)),
            i == digits.len() && i > 0 ==> carry > 0 || out@.last() != 0,
        decreases digits.len() - i,
    {
        let ghost before = out@;
        let ghost unit = pow(10, i as nat);
        let ghost held = carry as int;
        let digit: u8 = digits[i];
        let twice: u8 = digit * 2 + carry;
        proof {
            assert(digits@.take(i + 1).drop_last() =~= digits@.take(i as int));
            lemma_push(before, (twice % 10) as u8);
            lemma_tens(i as nat);
            let low = (twice % 10) as int;
            let high = (twice / 10) as int;
            assert(high * 10 + low == 2 * digit + held);
            assert(low * unit + high * (10 * unit) == 2 * (digit * unit) + held * unit) by (nonlinear_arith)
                requires
                    high * 10 + low == 2 * digit + held,
            ;
            assert(i + 1 == digits.len() ==> digit != 0);
        }
        out.push(twice % 10);
        carry = twice / 10;
        i += 1;
    }
    assert(digits@.take(i as int) =~= digits@);
    let ghost before = out@;
    if carry > 0 {
        out.push(carry);
        proof {
            lemma_push(before, carry);
        }
    } else {
        proof {
            let unit = pow(10, i as nat);
            assert(0 * unit == 0) by (nonlinear_arith);
        }
    }
    out
}

/// The digits of a number times a power of two.
pub(crate) fn doubled_times(digits: Vec<u8>, times: usize) -> (out: Vec<u8>)
    requires
        is_trimmed(digits@),
    ensures
        is_trimmed(out@),
        value_of(out@) == value_of(digits@) * pow(2, times as nat),
{
    let ghost start = value_of(digits@);
    let mut out = digits;
    let mut i: usize = 0;
    proof {
        lemma_pow0(2);
    }
    while i < times
        invariant
            i <= times,
            is_trimmed(out@),
            value_of(out@) == start * pow(2, i as nat),
        decreases times - i,
    {
        let next = doubled(&out);
        proof {
            lemma_pow_adds(2, 1, i as nat);
            lemma_pow1(2);
            let unit = pow(2, i as nat);
            assert(2 * (start * unit) == start * (2 * unit)) by (nonlinear_arith);
        }
        out = next;
        i += 1;
    }
    out
}

/// Digits without the zeros in front.
pub(crate) fn trim_zeros(digits: Vec<u8>) -> (out: Vec<u8>)
    requires
        are_digits(digits@),
    ensures
        is_trimmed(out@),
        value_of(out@) == value_of(digits@),
{
    let mut out = digits;
    while out.len() > 0 && out[out.len() - 1] == 0
        invariant
            are_digits(out@),
            value_of(out@) == value_of(digits@),
        decreases out.len(),
    {
        let ghost before = out@;
        out.pop();
        proof {
            assert(out@ =~= before.drop_last());
            assert forall|i: int| 0 <= i < out@.len() implies #[trigger] out@[i] <= 9 by {
                assert(out@[i] == before[i]);
            }
            let place = pow(10, (before.len() - 1) as nat);
            assert(0 * place == 0) by (nonlinear_arith);
        }
    }
    out
}

fn shifted(digits: &Vec<u8>, zeros: usize) -> (out: Vec<u8>)
    requires
        are_digits(digits@),
    ensures
        are_digits(out@),
        out@.len() == zeros + digits@.len(),
        value_of(out@) == value_of(digits@) * pow(10, zeros as nat),
{
    let mut out: Vec<u8> = Vec::new();
    let mut i: usize = 0;
    while i < zeros
        invariant
            i <= zeros,
            out@.len() == i,
            forall|k: int| 0 <= k < i ==> #[trigger] out@[k] == 0,
        decreases zeros - i,
    {
        out.push(0);
        i += 1;
    }
    let ghost front = out@;
    let mut k: usize = 0;
    assert(front + digits@.take(0) =~= front);
    while k < digits.len()
        invariant
            k <= digits.len(),
            out@ == front + digits@.take(k as int),
        decreases digits.len() - k,
    {
        out.push(digits[k]);
        k += 1;
        assert(out@ =~= front + digits@.take(k as int));
    }
    assert(digits@.take(k as int) =~= digits@);
    proof {
        lemma_shift(front, digits@);
        assert forall|j: int| 0 <= j < out@.len() implies #[trigger] out@[j] <= 9 by {
            if j >= front.len() {
                assert(out@[j] == digits@[j - front.len()]);
            } else {
                assert(out@[j] == front[j]);
            }
        }
    }
    out
}

fn aligned_side(one: &Vec<u8>, other: &Vec<u8>) -> (side: Side)
    requires
        one@.len() == other@.len(),
        are_digits(one@),
        are_digits(other@),
    ensures
        (side is Above) == (value_of(one@) > value_of(other@)),
        (side is Below) == (value_of(one@) < value_of(other@)),
{
    let mut i: usize = one.len();
    while i > 0
        invariant
            i <= one.len(),
            one@.len() == other@.len(),
            are_digits(one@),
            are_digits(other@),
            forall|k: int| i <= k < one@.len() ==> #[trigger] one@[k] == other@[k],
        decreases i,
    {
        let a: u8 = one[i - 1];
        let b: u8 = other[i - 1];
        if a > b {
            proof {
                lemma_top(one@, other@, i - 1);
            }
            return Side::Above;
        }
        if a < b {
            proof {
                lemma_top(other@, one@, i - 1);
            }
            return Side::Below;
        }
        i -= 1;
    }
    assert(one@ =~= other@);
    Side::Equal
}

/// Where a number times a power of ten lies. `exponent` stands for `meant`, the
/// true exponent.
pub(crate) fn side_of(number: &Vec<u8>, exponent: i128, bound: &Vec<u8>, Ghost(meant): Ghost<int>) -> (side: Side)
    requires
        is_trimmed(number@),
        is_trimmed(bound@),
        number@.len() > 0,
        bound@.len() > 0,
        -0x1000 * FAR < exponent < 0x1000 * FAR,
        stands_for(exponent as int, meant),
    ensures
        (side is Above) == is_above(value_of(number@), meant, value_of(bound@)),
        (side is Below) == is_below(value_of(number@), meant, value_of(bound@)),
{
    proof {
        lemma_bounds(number@);
        lemma_bounds(bound@);
        assert(number@.len() == number.len() && bound@.len() == bound.len());
    }
    let places: i128 = number.len() as i128 + exponent;
    if places > bound.len() as i128 {
        proof {
            lemma_longer(value_of(number@), number@.len(), meant, value_of(bound@), bound@.len());
        }
        return Side::Above;
    }
    if places < bound.len() as i128 {
        proof {
            lemma_shorter(value_of(number@), number@.len(), meant, value_of(bound@), bound@.len());
        }
        return Side::Below;
    }
    assert(exponent == meant);
    if exponent >= 0 {
        let scaled = shifted(number, exponent as usize);
        aligned_side(&scaled, bound)
    } else {
        let scaled = shifted(bound, (-exponent) as usize);
        aligned_side(number, &scaled)
    }
}

// ---------------------------------------------------------------------------
// Texts
// ---------------------------------------------------------------------------

/// Two rows of digits, one behind the other.
pub(crate) proof fn lemma_digits_joined(front: Seq<char>, back: Seq<char>)
    ensures
        digits_value(front + back) as int == digits_value(front) as int * pow(10, back.len()) + digits_value(
            back,
        ) as int,
    decreases back.len(),
{
    if back.len() == 0 {
        assert(front + back =~= front);
        lemma_pow0(10);
    } else {
        let head = back.drop_last();
        lemma_digits_joined(front, head);
        assert((front + back).drop_last() =~= front + head);
        lemma_tens(head.len());
        let first = digits_value(front) as int;
        let unit = pow(10, head.len());
        assert((first * unit) * 10 == first * (10 * unit)) by (nonlinear_arith);
    }
}

/// Puts the digits of a text above those that are there.
pub(crate) fn push_digits(digits: &mut Vec<u8>, chars: &[char], from: usize, to: usize)
    requires
        from <= to <= chars.len(),
        are_digits(old(digits)@),
        forall|i: int| from <= i < to ==> is_digit(#[trigger] chars@[i]),
    ensures
        are_digits(final(digits)@),
        final(digits)@.len() == old(digits)@.len() + (to - from),
        value_of(final(digits)@) == value_of(old(digits)@) + digits_value(
            chars@.subrange(from as int, to as int),
        ) as int * pow(10, old(digits)@.len()),
{
    let ghost before = digits@;
    let ghost unit = pow(10, before.len());
    let mut i: usize = to;
    assert(chars@.subrange(to as int, to as int) =~= seq![]);
    assert(0 * unit == 0) by (nonlinear_arith);
    while i > from
        invariant
            from <= i <= to <= chars.len(),
            unit == pow(10, before.len()),
            forall|k: int| from <= k < to ==> is_digit(#[trigger] chars@[k]),
            are_digits(digits@),
            digits@.len() == before.len() + (to - i),
            value_of(digits@) == value_of(before) + digits_value(
                chars@.subrange(i as int, to as int),
            ) as int * unit,
        decreases i - from,
    {
        let ghost held = digits@;
        let ghost back = chars@.subrange(i as int, to as int);
        assert(is_digit(chars@[i - 1]));
        let digit: u8 = (chars[i - 1] as u32 - 0x30) as u8;
        digits.push(digit);
        proof {
            let front = seq![chars@[i - 1]];
            assert(front + back =~= chars@.subrange(i - 1, to as int));
            lemma_digits_joined(front, back);
            assert(front.drop_last() =~= seq![]);
            assert(digits_value(front.drop_last()) == 0);
            assert(digits_value(front) == digit);
            lemma_push(held, digit);
            lemma_pow_adds(10, back.len(), before.len());
            let place = pow(10, back.len());
            let rest = digits_value(back) as int;
            assert(rest * unit + digit * (place * unit) == (digit * place + rest) * unit) by (nonlinear_arith);
        }
        i -= 1;
    }
}

/// Reads a row of digits; a number that is far out is replaced by another one that
/// is.
pub(crate) fn read_far(chars: &[char], from: usize) -> (number: i128)
    requires
        from <= chars.len(),
        forall|i: int| from <= i < chars.len() ==> is_digit(#[trigger] chars@[i]),
    ensures
        0 <= number < 0x100 * FAR,
        number == digits_value(chars@.skip(from as int)) || (number >= 2 * FAR && digits_value(
            chars@.skip(from as int),
        ) >= 2 * FAR),
{
    let ghost digits = chars@.skip(from as int);
    let mut number: i128 = 0;
    let mut i: usize = from;
    assert(digits.take(0) =~= seq![]);
    while i < chars.len()
        invariant
            from <= i <= chars.len(),
            digits == chars@.skip(from as int),
            forall|k: int| from <= k < chars.len() ==> is_digit(#[trigger] chars@[k]),
            0 <= number < 0x100 * FAR,
            number == digits_value(digits.take(i - from)) || (number >= 2 * FAR && digits_value(
                digits.take(i - from),
            ) >= 2 * FAR),
        decreases chars.len() - i,
    {
        assert(is_digit(chars@[i as int]));
        let digit: i128 = (chars[i] as u32 - 0x30) as i128;
        proof {
            let more = digits.take(i + 1 - from);
            assert(more.drop_last() =~= digits.take(i - from));
            assert(more.last() == chars@[i as int]);
        }
        if number < 2 * FAR {
            number = number * 10 + digit;
        }
        i += 1;
    }
    assert(digits.take(i - from) =~= digits);
    number
}

} // verus!
