//! What texts hold: numbers that read back, parts that join up again, and files
//! in the order of their age.
use vstd::prelude::*;

use crate::debugprobe::{
    ascii_lower, ascii_small, comes_before, is_newest, joined, process_line, process_lines, window_line,
    window_lines, ProcessInfo, WindowInfo,
};
use crate::parse::{
    digits_value, first_place, is_digit, is_white_space, law_read_digits, read_digits, read_unsigned,
    split_on, trimmed, trimmed_back, trimmed_front, IntError,
};
use crate::safety::{is_open_directory, peer_name};
use crate::text::{
    decimal, decimal8, digit_char, escaped, escaped_char, hex16, hex4, hex8, is_coded, json_escaped,
    log_escaped, short_escape, signed_decimal, upper_digit_char, upper_hex,
};
use crate::wide::{before_zero, decoded_wide, is_high_surrogate, is_low_surrogate, pair_code};

verus! {

// ---------------------------------------------------------------------------
// Numbers
// ---------------------------------------------------------------------------

/// The value of a hexadecimal digit of either case.
pub open spec fn hex_digit(ch: char) -> int {
    let code = ch as u32;
    if 0x30 <= code <= 0x39 {
        code - 0x30
    } else if 0x41 <= code <= 0x46 {
        code - 0x37
    } else {
        code - 0x57
    }
}

/// The number that hexadecimal digits write.
pub open spec fn hex_value(digits: Seq<char>) -> int
    decreases digits.len(),
{
    if digits.len() == 0 {
        0
    } else {
        16 * hex_value(digits.drop_last()) + hex_digit(digits.last())
    }
}

proof fn lemma_hex_digit(digit: nat)
    requires
        digit < 16,
    ensures
        hex_digit(digit_char(digit)) == digit,
        hex_digit(upper_digit_char(digit)) == digit,
{
}

#[verifier::rlimit(60)]
proof fn lemma_hex_joined(left: Seq<char>, right: Seq<char>, scale: int)
    requires
        right.len() == 4,
        scale == 65_536,
    ensures
        hex_value(left + right) == scale * hex_value(left) + hex_value(right),
{
    let a = (left + right).drop_last();
    let b = a.drop_last();
    let c = b.drop_last();
    assert(c.drop_last() =~= left);
    assert((left + right).last() == right[3]);
    assert(a.last() == right[2]);
    assert(b.last() == right[1]);
    assert(c.last() == right[0]);
    let d = right.drop_last();
    let e = d.drop_last();
    let f = e.drop_last();
    assert(f.drop_last().len() == 0);
    assert(hex_value(f.drop_last()) == 0);
    assert(hex_value(f) == hex_digit(right[0]));
    assert(hex_value(e) == 16 * hex_value(f) + hex_digit(right[1]));
    assert(hex_value(d) == 16 * hex_value(e) + hex_digit(right[2]));
    assert(hex_value(c) == 16 * hex_value(left) + hex_digit(right[0]));
    assert(hex_value(b) == 16 * hex_value(c) + hex_digit(right[1]));
    assert(hex_value(a) == 16 * hex_value(b) + hex_digit(right[2]));
}

/// Four, eight and sixteen hexadecimal digits read back as the number.
#[verifier::rlimit(60)]
pub proof fn law_hex_reads_back(value: nat)
    ensures
        hex4(value).len() == 4 && hex8(value).len() == 8 && hex16(value).len() == 16,
        value < 0x1_0000 ==> hex_value(hex4(value)) == value,
        value < 0x1_0000_0000 ==> hex_value(hex8(value)) == value,
        value < 0x1_0000_0000_0000_0000 ==> hex_value(hex16(value)) == value,
{
    if value < 0x1_0000 {
        lemma_hex4(value);
    }
    if value < 0x1_0000_0000 {
        lemma_hex8(value);
    }
    if value < 0x1_0000_0000_0000_0000 {
        lemma_hex16(value);
    }
}

#[verifier::rlimit(60)]
proof fn lemma_hex16(value: nat)
    requires
        value < 0x1_0000_0000_0000_0000,
    ensures
        hex_value(hex16(value)) == value,
{
    let high = value / 0x1_0000_0000;
    let low = value % 0x1_0000_0000;
    lemma_hex8(high);
    let first = hex8(high);
    let middle = hex4(low / 65536);
    let last = hex4(low % 65536);
    lemma_hex_joined(first, middle, 65_536);
    lemma_hex_joined(first + middle, last, 65_536);
    lemma_hex4(low / 65536);
    lemma_hex4(low % 65536);
    assert(hex16(value) =~= (first + middle) + last);
}

#[verifier::rlimit(60)]
proof fn lemma_hex4(value: nat)
    requires
        value < 0x1_0000,
    ensures
        hex_value(hex4(value)) == value,
{
    lemma_hex_digit(value / 4096 % 16);
    lemma_hex_digit(value / 256 % 16);
    lemma_hex_digit(value / 16 % 16);
    lemma_hex_digit(value % 16);
    let none = Seq::<char>::empty();
    lemma_hex_joined(none, hex4(value), 65_536);
    let digits = hex4(value);
    let d = digits.drop_last();
    let e = d.drop_last();
    let f = e.drop_last();
    assert(hex_value(f.drop_last()) == 0);
    assert(hex_value(f) == hex_digit(digits[0]));
    assert(hex_value(e) == 16 * hex_value(f) + hex_digit(digits[1]));
    assert(hex_value(d) == 16 * hex_value(e) + hex_digit(digits[2]));
    assert(hex_value(digits) == 16 * hex_value(d) + hex_digit(digits[3]));
}

#[verifier::rlimit(60)]
proof fn lemma_hex8(value: nat)
    requires
        value < 0x1_0000_0000,
    ensures
        hex_value(hex8(value)) == value,
{
    lemma_hex4(value / 65536);
    lemma_hex4(value % 65536);
    lemma_hex_joined(hex4(value / 65536), hex4(value % 65536), 65_536);
}

/// A number in upper-case hexadecimal reads back, has no small letters and, but
/// for zero, no zero in front.
pub proof fn law_upper_hex_reads_back(value: nat)
    ensures
        hex_value(upper_hex(value)) == value,
        upper_hex(value).len() > 0,
        value > 0 ==> upper_hex(value)[0] != '0',
        forall|i: int| 0 <= i < upper_hex(value).len() ==> (#[trigger] upper_hex(value)[i]) as u32 <= 0x46,
    decreases value,
{
    let text = upper_hex(value);
    lemma_hex_digit(value % 16);
    if value < 16 {
        lemma_hex_digit(value);
        assert(hex_value(text.drop_last()) == 0);
    } else {
        law_upper_hex_reads_back(value / 16);
        assert(text.drop_last() =~= upper_hex(value / 16));
        assert(text[0] == upper_hex(value / 16)[0]);
        assert forall|i: int| 0 <= i < text.len() implies (#[trigger] text[i]) as u32 <= 0x46 by {
            if i < text.len() - 1 {
                assert(text[i] == upper_hex(value / 16)[i]);
            }
        }
    }
}

/// A number in decimal is made of digits, reads back and, but for zero, has no
/// zero in front; a negative one has a sign before that.
pub proof fn law_decimal_digits(value: nat)
    ensures
        digits_value(decimal(value)) == value,
        decimal(value).len() > 0,
        value > 0 ==> decimal(value)[0] != '0',
        forall|i: int| 0 <= i < decimal(value).len() ==> is_digit(#[trigger] decimal(value)[i]),
        value > 0 ==> signed_decimal(-value) == seq!['-'] + decimal(value),
        signed_decimal(value as int) == decimal(value),
    decreases value,
{
    let text = decimal(value);
    if value < 10 {
        assert(digits_value(text.drop_last()) == 0);
    } else {
        law_decimal_digits(value / 10);
        assert(text.drop_last() =~= decimal(value / 10));
        assert(text[0] == decimal(value / 10)[0]);
        assert forall|i: int| 0 <= i < text.len() implies is_digit(#[trigger] text[i]) by {
            if i < text.len() - 1 {
                assert(text[i] == decimal(value / 10)[i]);
            }
        }
    }
}

proof fn lemma_zeros(count: nat, digits: Seq<char>)
    ensures
        digits_value(Seq::new(count, |i: int| '0') + digits) == digits_value(digits),
    decreases count + digits.len(),
{
    let zeros = Seq::new(count, |i: int| '0');
    let all = zeros + digits;
    if digits.len() > 0 {
        lemma_zeros(count, digits.drop_last());
        assert(all.drop_last() =~= zeros + digits.drop_last());
    } else if count > 0 {
        let fewer = (count - 1) as nat;
        lemma_zeros(fewer, digits);
        assert(all.drop_last() =~= Seq::new(fewer, |i: int| '0') + digits);
        assert(all.last() == '0');
    } else {
        assert(all =~= digits);
    }
}

/// A number padded to eight digits has at least eight and reads back.
pub proof fn law_padded_decimal_reads_back(value: nat)
    ensures
        decimal8(value).len() >= 8,
        digits_value(decimal8(value)) == value,
{
    let digits = decimal(value);
    law_decimal_digits(value);
    lemma_zeros((if digits.len() < 8 { 8 - digits.len() } else { 0 }) as nat, digits);
}

/// Made-up peers have different names.
pub proof fn law_peer_names_differ(one: nat, other: nat)
    requires
        one != other,
    ensures
        peer_name(one) != peer_name(other),
{
    law_padded_decimal_reads_back(one);
    law_padded_decimal_reads_back(other);
    let head = "safety-peer-"@;
    if peer_name(one) == peer_name(other) {
        assert(peer_name(one).skip(head.len() as int) =~= decimal8(one));
        assert(peer_name(other).skip(head.len() as int) =~= decimal8(other));
    }
}

// ---------------------------------------------------------------------------
// Parts
// ---------------------------------------------------------------------------

/// Texts with a separator between each two of them.
pub open spec fn linked(parts: Seq<Seq<char>>, separator: char) -> Seq<char>
    decreases parts.len(),
{
    if parts.len() == 0 {
        seq![]
    } else if parts.len() == 1 {
        parts[0]
    } else {
        linked(parts.drop_last(), separator) + seq![separator] + parts.last()
    }
}

/// The parts of a text hold no separator and, with separators between them, make
/// up the text again.
#[verifier::rlimit(60)]
pub proof fn law_parts_make_up_the_text(value: Seq<char>, separator: char)
    ensures
        split_on(value, separator).len() > 0,
        linked(split_on(value, separator), separator) == value,
        forall|i: int, k: int|
            0 <= i < split_on(value, separator).len() && 0 <= k < split_on(value, separator)[i].len()
                ==> (#[trigger] split_on(value, separator)[i][k]) != separator,
    decreases value.len(),
{
    let parts = split_on(value, separator);
    if value.len() == 0 {
        assert(linked(parts, separator) =~= value);
    } else {
        let head = value.drop_last();
        law_parts_make_up_the_text(head, separator);
        let before = split_on(head, separator);
        assert(value =~= head.push(value.last()));
        if value.last() == separator {
            assert(parts.drop_last() =~= before);
            assert(linked(parts, separator) =~= value);
        } else {
            let longer = before.last().push(value.last());
            assert(parts.drop_last() =~= before.drop_last());
            assert(parts.last() == longer);
            if before.len() == 1 {
                assert(linked(before, separator) == before[0]);
                assert(linked(parts, separator) =~= value);
            } else {
                assert(linked(parts, separator) =~= linked(before, separator).push(value.last()));
            }
            assert forall|i: int, k: int| 0 <= i < parts.len() && 0 <= k < parts[i].len() implies (
            #[trigger] parts[i][k]) != separator by {
                if i < parts.len() - 1 {
                    assert(parts[i] == before[i]);
                    assert(before[i][k] != separator);
                } else {
                    if k < before.last().len() {
                        assert(before[before.len() - 1][k] != separator);
                    }
                }
            }
        }
    }
}

/// Values joined into a list have commas between them.
pub proof fn law_lists_have_commas(parts: Seq<Seq<char>>)
    ensures
        joined(parts) == linked(parts, ','),
    decreases parts.len(),
{
    if parts.len() > 1 {
        law_lists_have_commas(parts.drop_last());
    }
}

proof fn lemma_trimmed_front(value: Seq<char>)
    ensures
        trimmed_front(value).len() <= value.len(),
        trimmed_front(value) == value.skip(value.len() - trimmed_front(value).len()),
        forall|i: int|
            0 <= i < value.len() - trimmed_front(value).len() ==> is_white_space(#[trigger] value[i]),
        trimmed_front(value).len() > 0 ==> !is_white_space(trimmed_front(value)[0]),
    decreases value.len(),
{
    let out = trimmed_front(value);
    if value.len() > 0 && is_white_space(value[0]) {
        let rest = value.skip(1);
        lemma_trimmed_front(rest);
        assert(out =~= value.skip(value.len() - out.len()));
        assert forall|i: int| 0 <= i < value.len() - out.len() implies is_white_space(#[trigger] value[i]) by {
            if i > 0 {
                assert(rest[i - 1] == value[i]);
            }
        }
    } else {
        assert(out =~= value.skip(0));
    }
}

proof fn lemma_trimmed_back(value: Seq<char>)
    ensures
        trimmed_back(value).len() <= value.len(),
        trimmed_back(value) == value.take(trimmed_back(value).len() as int),
        forall|i: int| trimmed_back(value).len() <= i < value.len() ==> is_white_space(#[trigger] value[i]),
        trimmed_back(value).len() > 0 ==> !is_white_space(trimmed_back(value).last()),
    decreases value.len(),
{
    let out = trimmed_back(value);
    if value.len() > 0 && is_white_space(value.last()) {
        let rest = value.drop_last();
        lemma_trimmed_back(rest);
        assert(out =~= value.take(out.len() as int));
        assert forall|i: int| out.len() <= i < value.len() implies is_white_space(#[trigger] value[i]) by {
            if i < rest.len() {
                assert(rest[i] == value[i]);
            }
        }
    } else {
        assert(out =~= value.take(value.len() as int));
    }
}

/// Trimming takes white space off both ends, all of it and nothing else: what is
/// left stands in the text from `from` on, and neither starts nor ends with white
/// space.
pub proof fn law_trimming_takes_the_ends(value: Seq<char>)
    ensures
        ({
            let out = trimmed(value);
            &&& out.len() > 0 ==> !is_white_space(out[0]) && !is_white_space(out.last())
            &&& exists|from: int|
                #![trigger value.subrange(from, from + out.len())]
                0 <= from && from + out.len() <= value.len() && out == value.subrange(from, from + out.len())
                    && forall|i: int|
                    0 <= i < value.len() && (i < from || i >= from + out.len()) ==> is_white_space(
                        #[trigger] value[i],
                    )
        }),
{
    let front = trimmed_front(value);
    let out = trimmed(value);
    lemma_trimmed_front(value);
    lemma_trimmed_back(front);
    let from = value.len() - front.len();
    assert(out =~= value.subrange(from, from + out.len()));
    assert forall|i: int| 0 <= i < value.len() && (i < from || i >= from + out.len()) implies is_white_space(
        #[trigger] value[i],
    ) by {
        if i >= from {
            assert(front[i - from] == value[i]);
        }
    }
    if out.len() > 0 {
        assert(out[0] == front[0]);
    }
}

/// Of the ASCII characters the blank and those from the tab to the carriage
/// return are white space.
pub proof fn law_ascii_white_space(ch: char)
    requires
        (ch as u32) < 0x80,
    ensures
        is_white_space(ch) <==> ch == ' ' || 9 <= ch as u32 <= 13,
{
}

/// The first place of a character holds it, and no place before does; where there
/// is none it is the end.
pub proof fn law_first_place(value: Seq<char>, wanted: char)
    ensures
        0 <= first_place(value, wanted) <= value.len(),
        first_place(value, wanted) < value.len() ==> value[first_place(value, wanted)] == wanted,
        forall|i: int| 0 <= i < first_place(value, wanted) ==> #[trigger] value[i] != wanted,
    decreases value.len(),
{
    if value.len() > 0 && value[0] != wanted {
        let rest = value.skip(1);
        law_first_place(rest, wanted);
        assert forall|i: int| 0 <= i < first_place(value, wanted) implies #[trigger] value[i] != wanted by {
            if i > 0 {
                assert(rest[i - 1] == value[i]);
            }
        }
    }
}

/// Case does not count for ASCII letters and for nothing else: a capital becomes
/// the letter 32 codes on, every other character stays.
pub proof fn law_case_is_ignored(text: Seq<char>, at: int)
    requires
        0 <= at < text.len(),
    ensures
        ascii_lower(text).len() == text.len(),
        'A' as u32 <= text[at] as u32 <= 'Z' as u32 ==> ascii_lower(text)[at] as u32 == text[at] as u32 + 32,
        !('A' as u32 <= text[at] as u32 <= 'Z' as u32) ==> ascii_lower(text)[at] == text[at],
        ascii_lower(ascii_lower(text)) == ascii_lower(text),
{
    assert forall|i: int| 0 <= i < text.len() implies ascii_small(ascii_small(text[i])) == ascii_small(
        text[i],
    ) by {}
    assert(ascii_lower(ascii_lower(text)) =~= ascii_lower(text));
}

// ---------------------------------------------------------------------------
// Files
// ---------------------------------------------------------------------------

/// The newest files are as many as asked for, or all; no file comes twice, they
/// go from new to old, and none that is left out is newer. Of files of the same
/// age the one listed later comes first.
pub proof fn law_newest_files(modified: Seq<i128>, limit: int, chosen: Seq<usize>)
    requires
        limit >= 0,
        modified.len() <= usize::MAX,
        is_newest(modified, limit, chosen),
    ensures
        chosen.len() <= limit && chosen.len() <= modified.len(),
        chosen.len() == limit || chosen.len() == modified.len(),
        chosen.no_duplicates(),
        forall|i: int, j: int|
            0 <= i < j < chosen.len() ==> modified[#[trigger] chosen[i] as int] >= modified[#[trigger] chosen[j] as int],
        forall|i: int, j: int|
            0 <= i < j < chosen.len() && modified[#[trigger] chosen[i] as int] == modified[#[trigger] chosen[j] as int]
                ==> chosen[i] > chosen[j],
        forall|i: int, other: usize|
            0 <= i < chosen.len() && other < modified.len() && !chosen.contains(other)
                ==> modified[#[trigger] chosen[i] as int] >= #[trigger] modified[other as int],
{
    assert forall|i: int, other: usize|
        0 <= i < chosen.len() && other < modified.len() && !chosen.contains(other) implies modified[#[trigger] chosen[i] as int]
        >= #[trigger] modified[other as int] by {
        assert(comes_before(modified, chosen[i] as int, other as int));
    }
}

// ---------------------------------------------------------------------------
// 16-bit units
// ---------------------------------------------------------------------------

/// A unit outside the surrogates is its character, a pair of surrogates the
/// character behind the first 65536 whose number its twenty low bits make, and a
/// surrogate without its partner the replacement character; what follows is read
/// on its own.
pub proof fn law_units_are_read_in_order(units: Seq<u16>)
    requires
        units.len() > 0,
    ensures
        ({
            let first = units[0];
            let text = decoded_wide(units);
            let high = 0xd800 <= first < 0xdc00;
            let low = 0xdc00 <= first < 0xe000;
            let paired = high && units.len() > 1 && 0xdc00 <= units[1] < 0xe000;
            &&& text.len() > 0
            &&& !high && !low ==> text[0] as u32 == first && text.skip(1) == decoded_wide(units.skip(1))
            &&& paired ==> text[0] as u32 == 0x1_0000 + 0x400 * (first - 0xd800) + (units[1] - 0xdc00)
                && text.skip(1) == decoded_wide(units.skip(2))
            &&& (high && !paired) || low ==> text[0] as u32 == 0xfffd && text.skip(1) == decoded_wide(
                units.skip(1),
            )
        }),
{
    let text = decoded_wide(units);
    if is_high_surrogate(units[0]) && units.len() > 1 && is_low_surrogate(units[1]) {
        assert(text.skip(1) =~= decoded_wide(units.skip(2)));
        let code = pair_code(units[0], units[1]);
        assert(code <= 0x10_ffff && code >= 0x1_0000);
        assert((code as char) as u32 == code);
    } else {
        assert(text.skip(1) =~= decoded_wide(units.skip(1)));
        let code = units[0] as u32;
        if !is_high_surrogate(units[0]) && !is_low_surrogate(units[0]) {
            assert((code as char) as u32 == code);
        }
    }
}

/// A text ends at the first zero: the units before it hold none, and where the
/// units go on the next one is zero.
pub proof fn law_text_ends_at_zero(units: Seq<u16>)
    ensures
        before_zero(units).len() <= units.len(),
        before_zero(units) == units.take(before_zero(units).len() as int),
        forall|i: int| 0 <= i < before_zero(units).len() ==> #[trigger] units[i] != 0,
        before_zero(units).len() < units.len() ==> units[before_zero(units).len() as int] == 0,
    decreases units.len(),
{
    let out = before_zero(units);
    if units.len() > 0 && units[0] != 0 {
        let rest = units.skip(1);
        law_text_ends_at_zero(rest);
        assert(out =~= units.take(out.len() as int));
        assert forall|i: int| 0 <= i < out.len() implies #[trigger] units[i] != 0 by {
            if i > 0 {
                assert(rest[i - 1] == units[i]);
            }
        }
    } else {
        assert(out =~= units.take(0));
    }
}

// ---------------------------------------------------------------------------
// JSON strings
// ---------------------------------------------------------------------------

/// A text is escaped character by character.
pub proof fn law_escapes_join_up(left: Seq<char>, right: Seq<char>)
    ensures
        json_escaped(left + right) == json_escaped(left) + json_escaped(right),
        log_escaped(left + right) == log_escaped(left) + log_escaped(right),
    decreases right.len(),
{
    if right.len() == 0 {
        assert(left + right =~= left);
        assert(json_escaped(left) + json_escaped(right) =~= json_escaped(left));
        assert(log_escaped(left) + log_escaped(right) =~= log_escaped(left));
    } else {
        law_escapes_join_up(left, right.drop_last());
        assert((left + right).drop_last() =~= left + right.drop_last());
        assert((left + right).last() == right.last());
        assert(json_escaped(left + right) =~= json_escaped(left) + json_escaped(right));
        assert(log_escaped(left + right) =~= log_escaped(left) + log_escaped(right));
    }
}

/// A character that JSON can hold stays as it is; a quote and a backslash get a
/// backslash, line feed, carriage return and tab their letters, and the other
/// control characters `u` and four digits that read back as their code. In the
/// log those from U+007F on stay.
#[verifier::rlimit(60)]
pub proof fn law_escape_of_a_character(ch: char)
    ensures
        ({
            let json = json_escaped(seq![ch]);
            let log = log_escaped(seq![ch]);
            let code = ch as u32;
            let short = ch == '"' || ch == '\\' || ch == '\n' || ch == '\r' || ch == '\t';
            let coded = !short && (code < 0x20 || 0x7f <= code < 0xa0);
            &&& ch == '"' ==> json == seq!['\\', '"']
            &&& ch == '\\' ==> json == seq!['\\', '\\']
            &&& ch == '\n' ==> json == seq!['\\', 'n']
            &&& ch == '\r' ==> json == seq!['\\', 'r']
            &&& ch == '\t' ==> json == seq!['\\', 't']
            &&& coded ==> json.len() == 6 && json[0] == '\\' && json[1] == 'u' && hex_value(json.skip(2))
                == code
            &&& !short && !coded ==> json == seq![ch]
            &&& code < 0x7f || code >= 0xa0 ==> log == json
            &&& 0x7f <= code < 0xa0 ==> log == seq![ch]
        }),
{
    let one = seq![ch];
    assert(one.drop_last() =~= seq![]);
    assert(one.last() == ch);
    reveal_with_fuel(escaped, 2);
    assert(escaped(one, true) =~= escaped_char(ch, true));
    assert(escaped(one, false) =~= escaped_char(ch, false));
    let code = ch as u32 as nat;
    if short_escape(ch) is None && is_coded(ch, true) {
        law_hex_reads_back(code);
        assert(escaped_char(ch, true).skip(2) =~= hex4(code));
    }
}

// ---------------------------------------------------------------------------
// Directories
// ---------------------------------------------------------------------------

/// A directory is open exactly if its group or everyone may write to it: the
/// fifth or the second of its mode's bits is set, or the mode is not known.
pub proof fn law_open_directory(mode: u32)
    ensures
        is_open_directory(Some(mode)) <==> mode / 16 % 2 == 1 || mode / 2 % 2 == 1,
        is_open_directory(None),
{
    assert(mode & 0o022 != 0 <==> mode / 16 % 2 == 1 || mode / 2 % 2 == 1) by (bit_vector);
}

// ---------------------------------------------------------------------------
// Integers and summaries
// ---------------------------------------------------------------------------

/// A text without a plus in front.
pub open spec fn without_plus(value: Seq<char>) -> Seq<char> {
    if value.len() > 0 && value[0] == '+' {
        value.skip(1)
    } else {
        value
    }
}

/// Whether a text is made of digits.
pub open spec fn all_digits(value: Seq<char>) -> bool {
    forall|i: int| 0 <= i < value.len() ==> is_digit(#[trigger] value[i])
}

/// A text is an unsigned integer exactly if it is made of digits, at least one,
/// behind an optional plus, and writes a number that is not too large. An empty
/// text is told apart, and digits alone can only be too large.
pub proof fn law_unsigned_texts(value: Seq<char>, max: nat)
    ensures
        ({
            let digits = without_plus(value);
            let res = read_unsigned(value, max);
            &&& res is Ok <==> digits.len() > 0 && all_digits(digits) && digits_value(digits) <= max
            &&& res matches Ok(number) ==> number == digits_value(digits)
            &&& res == Err::<nat, IntError>(IntError::Empty) <==> value.len() == 0
            &&& digits.len() > 0 && all_digits(digits) && digits_value(digits) > max ==> res == Err::<
                nat,
                IntError,
            >(IntError::Overflow)
        }),
{
    let digits = without_plus(value);
    law_read_digits(digits, max);
    lemma_digit_errors(digits, max);
    if digits.len() > 0 {
        assert(read_unsigned(value, max) == read_digits(digits, max));
    }
}

proof fn lemma_digit_errors(digits: Seq<char>, max: nat)
    ensures
        read_digits(digits, max) != Err::<nat, IntError>(IntError::Empty),
        all_digits(digits) ==> read_digits(digits, max) != Err::<nat, IntError>(IntError::InvalidDigit),
    decreases digits.len(),
{
    if digits.len() > 0 {
        let head = digits.drop_last();
        lemma_digit_errors(head, max);
        assert(digits[digits.len() - 1] == digits.last());
        if all_digits(digits) {
            assert forall|i: int| 0 <= i < head.len() implies is_digit(#[trigger] head[i]) by {
                assert(head[i] == digits[i]);
            }
        }
    }
}

/// The summary has a line for each process and each window, in their order.
pub proof fn law_summary_lists_everything(
    processes: Seq<ProcessInfo>,
    process: ProcessInfo,
    windows: Seq<WindowInfo>,
    window: WindowInfo,
)
    ensures
        process_lines(processes.push(process)) == process_lines(processes) + process_line(process),
        window_lines(windows.push(window)) == window_lines(windows) + window_line(window),
        process_lines(seq![]) == Seq::<char>::empty(),
        window_lines(seq![]) == Seq::<char>::empty(),
{
    assert(processes.push(process).drop_last() =~= processes);
    assert(windows.push(window).drop_last() =~= windows);
}

} // verus!
