//! Parsing of option values: unsigned integers, lists and trimmed words.
use vstd::prelude::*;
use vstd::string::*;

use crate::text::{chars_of, text_of};

verus! {

/// Why a text is not an unsigned integer.
#[derive(Clone, Copy, Debug, PartialEq, Eq, Structural)]
pub enum IntError {
    /// The text is empty.
    Empty,
    /// A character other than a decimal digit (after an optional `+`).
    InvalidDigit,
    /// The number is above the largest one of its type.
    Overflow,
}

impl IntError {
    /// The reason in words.
    pub open spec fn reason(self) -> Seq<char> {
        match self {
            IntError::Empty => "cannot parse integer from empty string"@,
            IntError::InvalidDigit => "invalid digit found in string"@,
            IntError::Overflow => "number too large to fit in target type"@,
        }
    }

    /// The reason in words.
    pub fn message(&self) -> (text: &'static str)
        ensures
            text@ == self.reason(),
    {
        match self {
            IntError::Empty => "cannot parse integer from empty string",
            IntError::InvalidDigit => "invalid digit found in string",
            IntError::Overflow => "number too large to fit in target type",
        }
    }
}

/// Whether `ch` is one of `0` to `9`.
pub open spec fn is_digit(ch: char) -> bool {
    0x30 <= ch as u32 <= 0x39
}

/// The number that a row of decimal digits writes.
pub open spec fn digits_value(digits: Seq<char>) -> nat
    decreases digits.len(),
{
    if digits.len() == 0 {
        0
    } else {
        digits_value(digits.drop_last()) * 10 + (digits.last() as u32 - 0x30) as nat
    }
}

/// Reads digits from the left and stops at the first that is none or that leads
/// above `max`.
pub open spec fn read_digits(digits: Seq<char>, max: nat) -> Result<nat, IntError>
    decreases digits.len(),
{
    if digits.len() == 0 {
        Ok(0)
    } else {
        match read_digits(digits.drop_last(), max) {
            Err(err) => Err(err),
            Ok(value) => if !is_digit(digits.last()) {
                Err(IntError::InvalidDigit)
            } else if value * 10 + (digits.last() as u32 - 0x30) > max {
                Err(IntError::Overflow)
            } else {
                Ok((value * 10 + (digits.last() as u32 - 0x30)) as nat)
            },
        }
    }
}

/// What a text means as an unsigned integer of at most `max`: one or more digits
/// after an optional `+`.
pub open spec fn read_unsigned(value: Seq<char>, max: nat) -> Result<nat, IntError> {
    if value.len() == 0 {
        Err(IntError::Empty)
    } else if value[0] == '+' {
        if value.len() == 1 {
            Err(IntError::InvalidDigit)
        } else {
            read_digits(value.skip(1), max)
        }
    } else {
        read_digits(value, max)
    }
}

/// A row of characters reads as a number exactly if all of them are digits and
/// the number they write is at most `max`; it is then that number.
pub proof fn law_read_digits(digits: Seq<char>, max: nat)
    ensures
        read_digits(digits, max) is Ok <==> {
            &&& forall|i: int| 0 <= i < digits.len() ==> is_digit(#[trigger] digits[i])
            &&& digits_value(digits) <= max
        },
        read_digits(digits, max) matches Ok(value) ==> value == digits_value(digits),
    decreases digits.len(),
{
    if digits.len() > 0 {
        let head = digits.drop_last();
        law_read_digits(head, max);
        assert(digits[digits.len() - 1] == digits.last());
        if forall|i: int| 0 <= i < digits.len() ==> is_digit(#[trigger] digits[i]) {
            assert forall|i: int| 0 <= i < head.len() implies is_digit(#[trigger] head[i]) by {
                assert(head[i] == digits[i]);
            }
        }
        if forall|i: int| 0 <= i < head.len() ==> is_digit(#[trigger] head[i]) {
            if is_digit(digits.last()) {
                assert forall|i: int| 0 <= i < digits.len() implies is_digit(#[trigger] digits[i]) by {
                    if i < head.len() {
                        assert(head[i] == digits[i]);
                    }
                }
            }
        }
    }
}

/// A number written in decimal reads back as itself.
pub proof fn law_decimal_reads_back(value: nat, max: nat)
    requires
        value <= max,
    ensures
        read_unsigned(crate::text::decimal(value), max) == Ok::<nat, IntError>(value),
{
    lemma_decimal_digits(value);
    let text = crate::text::decimal(value);
    law_read_digits(text, max);
    assert(is_digit(text[0]));
}

/// The decimal form of a number is one or more digits that write it.
pub proof fn lemma_decimal_digits(value: nat)
    ensures
        crate::text::decimal(value).len() > 0,
        forall|i: int| 0 <= i < crate::text::decimal(value).len() ==> is_digit(
            #[trigger] crate::text::decimal(value)[i],
        ),
        digits_value(crate::text::decimal(value)) == value,
    decreases value,
{
    let text = crate::text::decimal(value);
    if value < 10 {
        assert(text.drop_last() =~= seq![]);
        assert(digits_value(text.drop_last()) == 0);
    } else {
        lemma_decimal_digits(value / 10);
        assert(text.drop_last() =~= crate::text::decimal(value / 10));
    }
}

/// Parses an unsigned integer of at most `max`.
pub fn parse_unsigned(value: &str, max: u64) -> (res: Result<u64, IntError>)
    ensures
        match res {
            Ok(number) => read_unsigned(value@, max as nat) == Ok::<nat, IntError>(number as nat),
            Err(err) => read_unsigned(value@, max as nat) == Err::<nat, IntError>(err),
        },
{
    let chars = chars_of(value);
    if chars.len() == 0 {
        return Err(IntError::Empty);
    }
    let mut start: usize = 0;
    if chars[0] == '+' {
        if chars.len() == 1 {
            return Err(IntError::InvalidDigit);
        }
        start = 1;
    }
    let ghost digits = chars@.skip(start as int);
    assert(start == 0 ==> digits =~= value@);
    let mut number: u64 = 0;
    let mut i: usize = start;
    while i < chars.len()
        invariant
            start <= i <= chars.len(),
            digits == chars@.skip(start as int),
            read_unsigned(value@, max as nat) == read_digits(digits, max as nat),
            number <= max,
            read_digits(digits.take(i - start), max as nat) == Ok::<nat, IntError>(number as nat),
        decreases chars.len() - i,
    {
        let ghost part = digits.take(i + 1 - start);
        proof {
            assert(part.drop_last() =~= digits.take(i - start));
            assert(part.last() == chars[i as int]);
        }
        let code: u32 = chars[i] as u32;
        if code < 0x30 || code > 0x39 {
            proof {
                lemma_read_error(digits, i + 1 - start, max as nat);
            }
            return Err(IntError::InvalidDigit);
        }
        let wide: u128 = number as u128 * 10 + (code - 0x30) as u128;
        if wide > max as u128 {
            proof {
                lemma_read_error(digits, i + 1 - start, max as nat);
            }
            return Err(IntError::Overflow);
        }
        number = wide as u64;
        i += 1;
    }
    assert(digits.take(i - start) =~= digits);
    Ok(number)
}

/// An error in a prefix is the error of the whole.
proof fn lemma_read_error(digits: Seq<char>, upto: int, max: nat)
    requires
        0 <= upto <= digits.len(),
        read_digits(digits.take(upto), max) is Err,
    ensures
        read_digits(digits, max) == read_digits(digits.take(upto), max),
    decreases digits.len() - upto,
{
    if upto == digits.len() {
        assert(digits.take(upto) =~= digits);
    } else {
        assert(digits.take(upto + 1).drop_last() =~= digits.take(upto));
        lemma_read_error(digits, upto + 1, max);
    }
}

/// A number that is read is at most `max`.
pub proof fn lemma_read_bounded(value: Seq<char>, max: nat)
    ensures
        read_unsigned(value, max) matches Ok(number) ==> number <= max,
{
    law_read_digits(value, max);
    law_read_digits(value.skip(1), max);
}

/// The largest `usize` as a 64-bit number.
pub fn usize_max() -> (max: u64)
    ensures
        max == usize::MAX,
{
    usize::MAX as u64
}

// ---------------------------------------------------------------------------
// Words
// ---------------------------------------------------------------------------

/// The contents of a list of texts.
pub open spec fn views(texts: Seq<String>) -> Seq<Seq<char>> {
    texts.map_values(|text: String| text@)
}

/// The parts of a text between the separators, empty ones among them.
pub open spec fn split_on(value: Seq<char>, separator: char) -> Seq<Seq<char>>
    decreases value.len(),
{
    if value.len() == 0 {
        seq![seq![]]
    } else {
        let parts = split_on(value.drop_last(), separator);
        if value.last() == separator {
            parts.push(seq![])
        } else {
            parts.drop_last().push(parts.last().push(value.last()))
        }
    }
}

proof fn lemma_split_nonempty(value: Seq<char>, separator: char)
    ensures
        split_on(value, separator).len() > 0,
    decreases value.len(),
{
    if value.len() > 0 {
        lemma_split_nonempty(value.drop_last(), separator);
    }
}

/// Splits a text at every separator.
pub fn split_text(value: &str, separator: char) -> (parts: Vec<String>)
    ensures
        views(parts@) == split_on(value@, separator),
        parts.len() > 0,
{
    let mut parts: Vec<String> = Vec::new();
    let mut part = String::new();
    assert(views(parts@).push(part@) =~= seq![seq![]]);
    for ch in it: value.chars()
        invariant
            it.seq() == value@,
            views(parts@).push(part@) == split_on(value@.take(it.index() as int), separator),
    {
        let ghost done = value@.take(it.index() as int);
        let ghost old_parts = views(parts@);
        let ghost old_part = part@;
        proof {
            assert(value@.take(it.index() + 1).drop_last() =~= done);
            assert(split_on(done, separator).drop_last() =~= old_parts);
            assert(split_on(done, separator).last() == old_part);
        }
        if ch == separator {
            parts.push(part);
            part = String::new();
            assert(views(parts@) =~= old_parts.push(old_part));
            assert(part@ =~= seq![]);
        } else {
            part.push(ch);
        }
        assert(views(parts@).push(part@) =~= split_on(value@.take(it.index() + 1), separator));
    }
    assert(value@.take(value@.len() as int) =~= value@);
    let ghost last = part@;
    let ghost before = views(parts@);
    parts.push(part);
    assert(views(parts@) =~= before.push(last));
    parts
}

/// The white space of Unicode.
pub open spec fn is_white_space(ch: char) -> bool {
    let code = ch as u32;
    ||| 0x09 <= code <= 0x0d
    ||| code == 0x20
    ||| code == 0x85
    ||| code == 0xa0
    ||| code == 0x1680
    ||| 0x2000 <= code <= 0x200a
    ||| code == 0x2028
    ||| code == 0x2029
    ||| code == 0x202f
    ||| code == 0x205f
    ||| code == 0x3000
}

fn white_space(ch: char) -> (yes: bool)
    ensures
        yes == is_white_space(ch),
{
    let code: u32 = ch as u32;
    (0x09 <= code && code <= 0x0d) || code == 0x20 || code == 0x85 || code == 0xa0 || code == 0x1680
        || (0x2000 <= code && code <= 0x200a) || code == 0x2028 || code == 0x2029 || code == 0x202f
        || code == 0x205f || code == 0x3000
}

/// A text without the white space at its front.
pub open spec fn trimmed_front(value: Seq<char>) -> Seq<char>
    decreases value.len(),
{
    if value.len() > 0 && is_white_space(value[0]) {
        trimmed_front(value.skip(1))
    } else {
        value
    }
}

/// A text without the white space at its end.
pub open spec fn trimmed_back(value: Seq<char>) -> Seq<char>
    decreases value.len(),
{
    if value.len() > 0 && is_white_space(value.last()) {
        trimmed_back(value.drop_last())
    } else {
        value
    }
}

/// A text without the white space at both ends.
pub open spec fn trimmed(value: Seq<char>) -> Seq<char> {
    trimmed_back(trimmed_front(value))
}

/// Removes the white space at both ends.
pub fn trim(value: &str) -> (out: String)
    ensures
        out@ == trimmed(value@),
{
    let chars = chars_of(value);
    let mut from: usize = 0;
    assert(chars@.skip(0) =~= chars@);
    while from < chars.len() && white_space(chars[from])
        invariant
            from <= chars.len(),
            trimmed_front(value@) == trimmed_front(chars@.skip(from as int)),
        decreases chars.len() - from,
    {
        assert(chars@.skip(from as int).skip(1) =~= chars@.skip(from + 1));
        from += 1;
    }
    let ghost front = chars@.skip(from as int);
    assert(trimmed_front(value@) == front);
    let mut to: usize = chars.len();
    assert(chars@.subrange(from as int, to as int) =~= front);
    while from < to && white_space(chars[to - 1])
        invariant
            from <= to <= chars.len(),
            trimmed_back(front) == trimmed_back(chars@.subrange(from as int, to as int)),
        decreases to,
    {
        let ghost part = chars@.subrange(from as int, to as int);
        assert(part.drop_last() =~= chars@.subrange(from as int, to - 1));
        to -= 1;
    }
    assert(from < to ==> chars@.subrange(from as int, to as int).last() == chars@[to - 1]);
    text_of(chars.as_slice(), from, to)
}

/// Whether `part` stands somewhere in `value`.
pub open spec fn holds_text(value: Seq<char>, part: Seq<char>) -> bool {
    exists|at: int| #[trigger] holds_text_at(value, part, at)
}

/// Whether `part` stands in `value` from the character `at` on.
pub open spec fn holds_text_at(value: Seq<char>, part: Seq<char>, at: int) -> bool {
    0 <= at && at + part.len() <= value.len() && value.subrange(at, at + part.len()) == part
}

/// Whether `part` stands somewhere in `value`.
pub fn contains_text(value: &str, part: &str) -> (found: bool)
    ensures
        found == holds_text(value@, part@),
{
    let chars = chars_of(value);
    let wanted = chars_of(part);
    if wanted.len() > chars.len() {
        return false;
    }
    let mut at: usize = 0;
    while at <= chars.len() - wanted.len()
        invariant
            wanted.len() <= chars.len(),
            chars@ == value@,
            wanted@ == part@,
            at <= chars.len() - wanted.len() + 1,
            forall|k: int| 0 <= k < at ==> !holds_text_at(value@, part@, k),
        decreases chars.len() + 1 - at,
    {
        let mut same: usize = 0;
        while same < wanted.len() && chars[at + same] == wanted[same]
            invariant
                same <= wanted.len(),
                at + wanted.len() <= chars.len(),
                forall|k: int| 0 <= k < same ==> chars@[at + k] == #[trigger] wanted@[k],
            decreases wanted.len() - same,
        {
            same += 1;
        }
        if same == wanted.len() {
            assert(chars@.subrange(at as int, at + wanted.len()) =~= wanted@);
            assert(holds_text_at(value@, part@, at as int));
            return true;
        }
        proof {
            if holds_text_at(value@, part@, at as int) {
                assert(value@.subrange(at as int, at + part@.len())[same as int] == part@[same as int]);
            }
        }
        at += 1;
    }
    false
}

/// The place of the first `wanted` in a text, its length where there is none.
pub open spec fn first_place(value: Seq<char>, wanted: char) -> int
    decreases value.len(),
{
    if value.len() == 0 || value[0] == wanted {
        0
    } else {
        1 + first_place(value.skip(1), wanted)
    }
}

/// The place of the first `wanted` in `chars`, its length where there is none.
pub fn find_char(chars: &[char], wanted: char) -> (place: usize)
    ensures
        place == first_place(chars@, wanted),
        place <= chars.len(),
        place < chars.len() ==> chars@[place as int] == wanted,
        forall|k: int| 0 <= k < place ==> chars@[k] != wanted,
{
    let mut place: usize = 0;
    assert(chars@.skip(0) =~= chars@);
    while place < chars.len() && chars[place] != wanted
        invariant
            place <= chars.len(),
            forall|k: int| 0 <= k < place ==> chars@[k] != wanted,
            first_place(chars@, wanted) == place + first_place(chars@.skip(place as int), wanted),
        decreases chars.len() - place,
    {
        assert(chars@.skip(place as int).skip(1) =~= chars@.skip(place + 1));
        place += 1;
    }
    place
}

} // verus!
