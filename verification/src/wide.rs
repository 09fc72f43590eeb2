//! Text in 16-bit units, as the Windows interfaces hand it out.
use vstd::prelude::*;
use vstd::string::*;

use crate::text::chars_of;

verus! {

/// `char::from_u32` gives the character with a code, for every code that is a
/// Unicode scalar value, and nothing for any other.
pub assume_specification[ char::from_u32 ](code: u32) -> (ch: Option<char>)
    ensures
        match ch {
            Some(ch) => ch as u32 == code,
            None => code > 0x10_ffff || 0xd800 <= code <= 0xdfff,
        },
;

pub open spec fn is_high_surrogate(unit: u16) -> bool {
    0xd800 <= unit <= 0xdbff
}

pub open spec fn is_low_surrogate(unit: u16) -> bool {
    0xdc00 <= unit <= 0xdfff
}

/// The code that a surrogate pair stands for.
pub open spec fn pair_code(high: u16, low: u16) -> u32 {
    (0x1_0000 + (high - 0xd800) * 0x400 + (low - 0xdc00)) as u32
}

/// The text that 16-bit units write; a surrogate without its partner becomes
/// U+FFFD.
pub open spec fn decoded_wide(units: Seq<u16>) -> Seq<char>
    decreases units.len(),
{
    if units.len() == 0 {
        seq![]
    } else if is_high_surrogate(units[0]) && units.len() > 1 && is_low_surrogate(units[1]) {
        seq![pair_code(units[0], units[1]) as char] + decoded_wide(units.skip(2))
    } else if is_high_surrogate(units[0]) || is_low_surrogate(units[0]) {
        seq!['\u{fffd}'] + decoded_wide(units.skip(1))
    } else {
        seq![units[0] as u32 as char] + decoded_wide(units.skip(1))
    }
}

/// The units of a character.
pub open spec fn char_units(ch: char) -> Seq<u16> {
    let code = ch as u32;
    if code < 0x1_0000 {
        seq![code as u16]
    } else {
        seq![
            (0xd800 + (code - 0x1_0000) / 0x400) as u16,
            (0xdc00 + (code - 0x1_0000) % 0x400) as u16,
        ]
    }
}

/// The units of a text.
pub open spec fn encoded_wide(text: Seq<char>) -> Seq<u16>
    decreases text.len(),
{
    if text.len() == 0 {
        seq![]
    } else {
        encoded_wide(text.drop_last()) + char_units(text.last())
    }
}

/// The units before the first zero.
pub open spec fn before_zero(units: Seq<u16>) -> Seq<u16>
    decreases units.len(),
{
    if units.len() == 0 || units[0] == 0 {
        seq![]
    } else {
        seq![units[0]] + before_zero(units.skip(1))
    }
}

fn char_of(code: u32) -> (ch: char)
    requires
        code <= 0x10_ffff,
        !(0xd800 <= code <= 0xdfff),
    ensures
        ch as u32 == code,
        ch == code as char,
{
    match char::from_u32(code) {
        Some(ch) => {
            proof {
                vstd::utf8::char_u32_cast(ch, code);
            }
            ch
        },
        None => '\u{fffd}',
    }
}

/// The text that 16-bit units write.
pub fn wide_text(units: &[u16]) -> (text: String)
    ensures
        text@ == decoded_wide(units@),
{
    let mut text = String::new();
    let mut i: usize = 0;
    assert(units@.skip(0) =~= units@);
    assert(text@ + decoded_wide(units@) =~= decoded_wide(units@));
    while i < units.len()
        invariant
            i <= units.len(),
            text@ + decoded_wide(units@.skip(i as int)) == decoded_wide(units@),
        decreases units.len() - i,
    {
        let ghost rest = units@.skip(i as int);
        let ghost before = text@;
        let unit: u16 = units[i];
        assert(rest[0] == unit);
        let high = 0xd800 <= unit && unit <= 0xdbff;
        if high && i + 1 < units.len() && 0xdc00 <= units[i + 1] && units[i + 1] <= 0xdfff {
            let low: u16 = units[i + 1];
            assert(rest[1] == low);
            let code: u32 = 0x1_0000 + (unit as u32 - 0xd800) * 0x400 + (low as u32 - 0xdc00);
            let ch = char_of(code);
            text.push(ch);
            proof {
                assert(rest.skip(2) =~= units@.skip(i + 2));
                assert(decoded_wide(rest) == seq![ch] + decoded_wide(rest.skip(2)));
                assert(text@ + decoded_wide(units@.skip(i + 2)) =~= before + decoded_wide(rest));
            }
            i += 2;
        } else {
            let ch = if high || (0xdc00 <= unit && unit <= 0xdfff) {
                '\u{fffd}'
            } else {
                char_of(unit as u32)
            };
            text.push(ch);
            proof {
                assert(rest.skip(1) =~= units@.skip(i + 1));
                assert(decoded_wide(rest) == seq![ch] + decoded_wide(rest.skip(1)));
                assert(text@ + decoded_wide(units@.skip(i + 1)) =~= before + decoded_wide(rest));
            }
            i += 1;
        }
    }
    assert(units@.skip(i as int) =~= seq![]);
    assert(text@ =~= decoded_wide(units@));
    text
}

/// The text of a buffer that ends at its first zero.
pub fn wide_to_string(units: &[u16]) -> (text: String)
    ensures
        text@ == decoded_wide(before_zero(units@)),
{
    let mut end: usize = 0;
    assert(units@.skip(0) =~= units@);
    assert(units@.take(0) + before_zero(units@) =~= before_zero(units@));
    while end < units.len() && units[end] != 0
        invariant
            end <= units.len(),
            units@.take(end as int) + before_zero(units@.skip(end as int)) == before_zero(units@),
        decreases units.len() - end,
    {
        proof {
            let rest = units@.skip(end as int);
            assert(rest.skip(1) =~= units@.skip(end + 1));
            assert(units@.take(end + 1) =~= units@.take(end as int).push(rest[0]));
            assert(units@.take(end + 1) + before_zero(units@.skip(end + 1)) =~= units@.take(end as int)
                + before_zero(rest));
        }
        end += 1;
    }
    assert(before_zero(units@.skip(end as int)) =~= seq![]);
    let part = vstd::slice::slice_subrange(units, 0, end);
    assert(part@ =~= before_zero(units@));
    wide_text(part)
}

/// A text in 16-bit units with a zero at its end.
pub fn wide_null(text: &str) -> (units: Vec<u16>)
    ensures
        units@ == encoded_wide(text@).push(0),
{
    let chars = chars_of(text);
    let mut units: Vec<u16> = Vec::new();
    let mut i: usize = 0;
    assert(chars@.take(0) =~= seq![]);
    assert(units@ =~= encoded_wide(chars@.take(0)));
    while i < chars.len()
        invariant
            i <= chars.len(),
            units@ == encoded_wide(chars@.take(i as int)),
        decreases chars.len() - i,
    {
        let ghost before = units@;
        let ch = chars[i];
        let code: u32 = ch as u32;
        proof {
            vstd::utf8::char_is_scalar(ch);
            assert(chars@.take(i + 1).drop_last() =~= chars@.take(i as int));
        }
        if code < 0x1_0000 {
            units.push(code as u16);
        } else {
            units.push((0xd800 + (code - 0x1_0000) / 0x400) as u16);
            units.push((0xdc00 + (code - 0x1_0000) % 0x400) as u16);
        }
        assert(units@ =~= before + char_units(ch));
        i += 1;
    }
    assert(chars@.take(i as int) =~= text@);
    units.push(0);
    units
}

/// A text survives the way into 16-bit units and back.
pub proof fn law_wide_round_trip(text: Seq<char>)
    ensures
        decoded_wide(encoded_wide(text)) == text,
    decreases text.len(),
{
    if text.len() == 0 {
        assert(decoded_wide(encoded_wide(text)) =~= text);
    } else {
        let head = text.drop_last();
        law_wide_round_trip(head);
        lemma_decode_append(head, text.last());
        assert(text =~= head.push(text.last()));
    }
}

/// The units of a whole text followed by those of one more character.
proof fn lemma_decode_append(head: Seq<char>, last: char)
    requires
        decoded_wide(encoded_wide(head)) == head,
    ensures
        decoded_wide(encoded_wide(head) + char_units(last)) == head.push(last),
{
    lemma_encoded_front(head);
    lemma_decode_prefix(head, char_units(last));
    lemma_decode_char(last);
    assert(head + seq![last] =~= head.push(last));
}

/// The units of a text are those of its first character, then those of the rest.
proof fn lemma_encoded_front(text: Seq<char>)
    ensures
        text.len() > 0 ==> encoded_wide(text) == char_units(text[0]) + encoded_wide(text.skip(1)),
    decreases text.len(),
{
    if text.len() == 1 {
        assert(text.drop_last() =~= seq![]);
        assert(text.skip(1) =~= seq![]);
        assert(encoded_wide(text) =~= char_units(text[0]) + encoded_wide(text.skip(1)));
    } else if text.len() > 1 {
        let head = text.drop_last();
        lemma_encoded_front(head);
        assert(head.skip(1) =~= text.skip(1).drop_last());
        assert(encoded_wide(text) =~= char_units(text[0]) + encoded_wide(text.skip(1)));
    }
}

/// Decoding the units of a text and then some gives the text and then what the
/// rest decodes to.
proof fn lemma_decode_prefix(text: Seq<char>, rest: Seq<u16>)
    ensures
        decoded_wide(encoded_wide(text) + rest) == text + decoded_wide(rest),
    decreases text.len(),
{
    if text.len() == 0 {
        assert(encoded_wide(text) + rest =~= rest);
        assert(text + decoded_wide(rest) =~= decoded_wide(rest));
    } else {
        lemma_encoded_front(text);
        let first = text[0];
        let tail = text.skip(1);
        let units = encoded_wide(text) + rest;
        let more = encoded_wide(tail) + rest;
        lemma_decode_prefix(tail, rest);
        vstd::utf8::char_is_scalar(first);
        let width = char_units(first).len();
        assert(units =~= char_units(first) + more);
        assert(units.skip(width as int) =~= more);
        lemma_first_char(first, more);
        assert(decoded_wide(units) =~= text + decoded_wide(rest));
    }
}

/// The units of a character are read as that character.
proof fn lemma_first_char(ch: char, rest: Seq<u16>)
    ensures
        decoded_wide(char_units(ch) + rest) == seq![ch] + decoded_wide(rest),
{
    vstd::utf8::char_is_scalar(ch);
    let code = ch as u32;
    let units = char_units(ch) + rest;
    vstd::utf8::char_u32_cast(ch, code);
    if code < 0x1_0000 {
        assert(units[0] == code);
        assert(units.skip(1) =~= rest);
    } else {
        let high = units[0];
        let low = units[1];
        assert(is_high_surrogate(high));
        assert(is_low_surrogate(low));
        assert(pair_code(high, low) == code);
        assert(units.skip(2) =~= rest);
    }
}

proof fn lemma_decode_char(ch: char)
    ensures
        decoded_wide(char_units(ch)) == seq![ch],
{
    lemma_first_char(ch, seq![]);
    assert(char_units(ch) + seq![] =~= char_units(ch));
    assert(seq![ch] + decoded_wide(seq![]) =~= seq![ch]);
}

} // verus!
