//! Text helpers: comparison, number rendering and the JSON string encodings of
//! the probes' logs.
use vstd::prelude::*;
use vstd::string::*;

verus! {

/// `String::push` appends one character.
pub assume_specification[ String::push ](text: &mut String, ch: char)
    ensures
        final(text)@ == old(text)@.push(ch),
;

/// Whether two texts hold the same characters.
pub fn text_eq(left: &str, right: &str) -> (same: bool)
    ensures
        same == (left@ == right@),
{
    let a = left.as_bytes();
    let b = right.as_bytes();
    proof {
        vstd::utf8::encode_utf8_decode_utf8(left@);
        vstd::utf8::encode_utf8_decode_utf8(right@);
    }
    if a.len() != b.len() {
        return false;
    }
    let mut i: usize = 0;
    while i < a.len()
        invariant
            i <= a.len(),
            a.len() == b.len(),
            forall|k: int| 0 <= k < i ==> a@[k] == b@[k],
            a@ == vstd::utf8::encode_utf8(left@),
            b@ == vstd::utf8::encode_utf8(right@),
        decreases a.len() - i,
    {
        if a[i] != b[i] {
            return false;
        }
        i += 1;
    }
    assert(a@ =~= b@);
    true
}

/// The characters of a text.
pub fn chars_of(value: &str) -> (chars: Vec<char>)
    ensures
        chars@ == value@,
{
    let mut chars: Vec<char> = Vec::new();
    for ch in it: value.chars()
        invariant
            it.seq() == value@,
            chars@ == value@.take(it.index() as int),
    {
        chars.push(ch);
        assert(chars@ =~= value@.take(it.index() + 1));
    }
    assert(chars@ =~= value@);
    chars
}

/// The text made of the characters `chars[from..to]`.
pub fn text_of(chars: &[char], from: usize, to: usize) -> (text: String)
    requires
        from <= to <= chars.len(),
    ensures
        text@ == chars@.subrange(from as int, to as int),
{
    let mut text = String::new();
    let mut i: usize = from;
    assert(text@ =~= chars@.subrange(from as int, i as int));
    while i < to
        invariant
            from <= i <= to <= chars.len(),
            text@ == chars@.subrange(from as int, i as int),
        decreases to - i,
    {
        text.push(chars[i]);
        i += 1;
        assert(text@ =~= chars@.subrange(from as int, i as int));
    }
    text
}

// ---------------------------------------------------------------------------
// Numbers
// ---------------------------------------------------------------------------

/// The character of a decimal or lower-case hexadecimal digit.
pub open spec fn digit_char(digit: nat) -> char {
    if digit == 0 { '0' }
    else if digit == 1 { '1' }
    else if digit == 2 { '2' }
    else if digit == 3 { '3' }
    else if digit == 4 { '4' }
    else if digit == 5 { '5' }
    else if digit == 6 { '6' }
    else if digit == 7 { '7' }
    else if digit == 8 { '8' }
    else if digit == 9 { '9' }
    else if digit == 10 { 'a' }
    else if digit == 11 { 'b' }
    else if digit == 12 { 'c' }
    else if digit == 13 { 'd' }
    else if digit == 14 { 'e' }
    else { 'f' }
}

/// The upper-case form of [`digit_char`].
pub open spec fn upper_digit_char(digit: nat) -> char {
    if digit == 10 { 'A' }
    else if digit == 11 { 'B' }
    else if digit == 12 { 'C' }
    else if digit == 13 { 'D' }
    else if digit == 14 { 'E' }
    else if digit == 15 { 'F' }
    else { digit_char(digit) }
}

/// A number in decimal, without leading zeros.
pub open spec fn decimal(value: nat) -> Seq<char>
    decreases value,
{
    if value < 10 {
        seq![digit_char(value)]
    } else {
        decimal(value / 10).push(digit_char(value % 10))
    }
}

/// A number in upper-case hexadecimal, without leading zeros.
pub open spec fn upper_hex(value: nat) -> Seq<char>
    decreases value,
{
    if value < 16 {
        seq![upper_digit_char(value)]
    } else {
        upper_hex(value / 16).push(upper_digit_char(value % 16))
    }
}

/// The four hexadecimal digits of a number below 65536.
pub open spec fn hex4(value: nat) -> Seq<char> {
    seq![
        digit_char(value / 4096 % 16),
        digit_char(value / 256 % 16),
        digit_char(value / 16 % 16),
        digit_char(value % 16),
    ]
}

/// The eight hexadecimal digits of a number below 2^32.
pub open spec fn hex8(value: nat) -> Seq<char> {
    hex4(value / 65536) + hex4(value % 65536)
}

fn digit_of(digit: u8) -> (ch: char)
    requires
        digit < 16,
    ensures
        ch == digit_char(digit as nat),
{
    match digit {
        0 => '0',
        1 => '1',
        2 => '2',
        3 => '3',
        4 => '4',
        5 => '5',
        6 => '6',
        7 => '7',
        8 => '8',
        9 => '9',
        10 => 'a',
        11 => 'b',
        12 => 'c',
        13 => 'd',
        14 => 'e',
        _ => 'f',
    }
}

fn upper_digit_of(digit: u8) -> (ch: char)
    requires
        digit < 16,
    ensures
        ch == upper_digit_char(digit as nat),
{
    match digit {
        10 => 'A',
        11 => 'B',
        12 => 'C',
        13 => 'D',
        14 => 'E',
        15 => 'F',
        _ => digit_of(digit),
    }
}

/// Appends `value` in decimal.
pub fn push_decimal(out: &mut String, value: u128)
    ensures
        final(out)@ == old(out)@ + decimal(value as nat),
    decreases value,
{
    if value < 10 {
        out.push(digit_of(value as u8));
        assert(out@ =~= old(out)@ + decimal(value as nat));
    } else {
        push_decimal(out, value / 10);
        out.push(digit_of((value % 10) as u8));
        assert(out@ =~= old(out)@ + decimal(value as nat));
    }
}

/// `value` in decimal.
pub fn decimal_text(value: u128) -> (text: String)
    ensures
        text@ == decimal(value as nat),
{
    let mut text = String::new();
    push_decimal(&mut text, value);
    assert(text@ =~= decimal(value as nat));
    text
}

/// Appends `value` in upper-case hexadecimal.
pub fn push_upper_hex(out: &mut String, value: u64)
    ensures
        final(out)@ == old(out)@ + upper_hex(value as nat),
    decreases value,
{
    if value < 16 {
        out.push(upper_digit_of(value as u8));
        assert(out@ =~= old(out)@ + upper_hex(value as nat));
    } else {
        push_upper_hex(out, value / 16);
        out.push(upper_digit_of((value % 16) as u8));
        assert(out@ =~= old(out)@ + upper_hex(value as nat));
    }
}

/// Appends the four hexadecimal digits of `value`.
pub fn push_hex4(out: &mut String, value: u16)
    ensures
        final(out)@ == old(out)@ + hex4(value as nat),
{
    out.push(digit_of((value / 4096 % 16) as u8));
    out.push(digit_of((value / 256 % 16) as u8));
    out.push(digit_of((value / 16 % 16) as u8));
    out.push(digit_of((value % 16) as u8));
    assert(out@ =~= old(out)@ + hex4(value as nat));
}

/// Appends the eight hexadecimal digits of `value`.
pub fn push_hex8(out: &mut String, value: u32)
    ensures
        final(out)@ == old(out)@ + hex8(value as nat),
{
    push_hex4(out, (value / 65536) as u16);
    push_hex4(out, (value % 65536) as u16);
    assert(out@ =~= old(out)@ + hex8(value as nat));
}

/// The sixteen hexadecimal digits of a number below 2^64.
pub open spec fn hex16(value: nat) -> Seq<char> {
    hex8(value / 0x1_0000_0000) + hex8(value % 0x1_0000_0000)
}

/// Appends the sixteen hexadecimal digits of `value`.
pub fn push_hex16(out: &mut String, value: u64)
    ensures
        final(out)@ == old(out)@ + hex16(value as nat),
{
    push_hex8(out, (value / 0x1_0000_0000) as u32);
    push_hex8(out, (value % 0x1_0000_0000) as u32);
    assert(out@ =~= old(out)@ + hex16(value as nat));
}

/// A signed number in decimal.
pub open spec fn signed_decimal(value: int) -> Seq<char> {
    if value < 0 {
        seq!['-'] + decimal((-value) as nat)
    } else {
        decimal(value as nat)
    }
}

/// Appends a signed number in decimal.
pub fn push_signed(out: &mut String, value: i64)
    ensures
        final(out)@ == old(out)@ + signed_decimal(value as int),
{
    if value < 0 {
        out.push('-');
        push_decimal(out, (0 - value as i128) as u128);
        assert(out@ =~= old(out)@ + signed_decimal(value as int));
    } else {
        push_decimal(out, value as u128);
    }
}

/// A number in decimal with at least eight digits.
pub open spec fn decimal8(value: nat) -> Seq<char> {
    let digits = decimal(value);
    Seq::new((if digits.len() < 8 { 8 - digits.len() } else { 0 }) as nat, |i: int| '0') + digits
}

/// Appends `value` in decimal with at least eight digits.
pub fn push_decimal8(out: &mut String, value: u128)
    ensures
        final(out)@ == old(out)@ + decimal8(value as nat),
{
    let digits = decimal_text(value);
    let count: usize = digits.as_str().unicode_len();
    let ghost before = out@;
    let ghost zeros = Seq::new((if count < 8 { 8 - count } else { 0 }) as nat, |i: int| '0');
    let mut filled: usize = count;
    assert(out@ =~= before + zeros.take(0));
    while filled < 8
        invariant
            count <= filled,
            count < 8 ==> filled <= 8,
            count >= 8 ==> filled == count,
            zeros == Seq::new((if count < 8 { 8 - count } else { 0 }) as nat, |i: int| '0'),
            out@ == before + zeros.take(filled - count),
        decreases 8 - filled,
    {
        out.push('0');
        filled += 1;
        assert(out@ =~= before + zeros.take(filled - count));
    }
    assert(zeros.take(filled - count) =~= zeros);
    out.append(digits.as_str());
    assert(out@ =~= before + decimal8(value as nat));
}

/// How `true` and `false` are written.
pub open spec fn bool_text(value: bool) -> Seq<char> {
    if value { seq!['t', 'r', 'u', 'e'] } else { seq!['f', 'a', 'l', 's', 'e'] }
}

/// Appends `true` or `false`.
pub fn push_bool(out: &mut String, value: bool)
    ensures
        final(out)@ == old(out)@ + bool_text(value),
{
    proof {
        reveal_strlit("true");
        reveal_strlit("false");
    }
    if value {
        out.append("true");
        assert("true"@ =~= bool_text(true));
    } else {
        out.append("false");
        assert("false"@ =~= bool_text(false));
    }
}

// ---------------------------------------------------------------------------
// JSON strings
// ---------------------------------------------------------------------------

/// The escape of the five characters that every JSON writer here escapes by a
/// backslash and one more character.
pub open spec fn short_escape(ch: char) -> Option<char> {
    if ch == '\\' {
        Some('\\')
    } else if ch == '"' {
        Some('"')
    } else if ch == '\n' {
        Some('n')
    } else if ch == '\r' {
        Some('r')
    } else if ch == '\t' {
        Some('t')
    } else {
        None
    }
}

/// A control character: U+0000 to U+001F and U+007F to U+009F.
pub open spec fn is_control(ch: char) -> bool {
    (ch as u32) < 0x20 || 0x7f <= (ch as u32) < 0xa0
}

/// Whether a character is written by its code: the characters below U+0020, which
/// cannot stand in a JSON string, and with `all` every control character.
pub open spec fn is_coded(ch: char, all: bool) -> bool {
    (ch as u32) < 0x20 || (all && is_control(ch))
}

/// One character of a JSON string; what is written by its code becomes `\u` and
/// four hexadecimal digits.
pub open spec fn escaped_char(ch: char, all: bool) -> Seq<char> {
    match short_escape(ch) {
        Some(code) => seq!['\\', code],
        None => if is_coded(ch, all) {
            seq!['\\', 'u'] + hex4(ch as u32 as nat)
        } else {
            seq![ch]
        },
    }
}

/// The inside of a JSON string, escaped character by character.
pub open spec fn escaped(value: Seq<char>, all: bool) -> Seq<char>
    decreases value.len(),
{
    if value.len() == 0 {
        seq![]
    } else {
        escaped(value.drop_last(), all) + escaped_char(value.last(), all)
    }
}

/// The inside of a JSON string without control characters.
pub open spec fn json_escaped(value: Seq<char>) -> Seq<char> {
    escaped(value, true)
}

/// The inside of a JSON string of the network probe's log, where U+007F to U+009F
/// stay as they are.
pub open spec fn log_escaped(value: Seq<char>) -> Seq<char> {
    escaped(value, false)
}

/// A JSON string with its quotes.
pub open spec fn json_quoted(value: Seq<char>) -> Seq<char> {
    seq!['"'] + json_escaped(value) + seq!['"']
}

fn short_escape_of(ch: char) -> (code: Option<char>)
    ensures
        code == short_escape(ch),
{
    match ch {
        '\\' => Some('\\'),
        '"' => Some('"'),
        '\n' => Some('n'),
        '\r' => Some('r'),
        '\t' => Some('t'),
        _ => None,
    }
}

fn escape(value: &str, all: bool) -> (out: String)
    ensures
        out@ == escaped(value@, all),
{
    let mut out = String::new();
    for ch in it: value.chars()
        invariant
            it.seq() == value@,
            out@ == escaped(value@.take(it.index() as int), all),
    {
        let ghost before = out@;
        match short_escape_of(ch) {
            Some(code) => {
                out.push('\\');
                out.push(code);
            },
            None => {
                let code: u32 = ch as u32;
                if code < 0x20 || (all && 0x7f <= code && code < 0xa0) {
                    out.push('\\');
                    out.push('u');
                    push_hex4(&mut out, code as u16);
                } else {
                    out.push(ch);
                }
            },
        }
        proof {
            let next = value@.take(it.index() + 1);
            assert(next.drop_last() =~= value@.take(it.index() as int));
            assert(out@ =~= before + escaped_char(ch, all));
        }
    }
    assert(value@.take(value@.len() as int) =~= value@);
    out
}

/// Escapes a value for the network probe's log lines.
pub fn json_escape(value: &str) -> (out: String)
    ensures
        out@ == log_escaped(value@),
{
    escape(value, false)
}

/// Escapes a value for the inside of a JSON string, all control characters by
/// their codes.
pub fn escape_json(value: &str) -> (out: String)
    ensures
        out@ == json_escaped(value@),
{
    escape(value, true)
}

/// A value as a JSON string with its quotes.
pub fn json_string(value: &str) -> (out: String)
    ensures
        out@ == json_quoted(value@),
{
    let mut out = String::new();
    out.push('"');
    out.append(escape_json(value).as_str());
    out.push('"');
    assert(out@ =~= json_quoted(value@));
    out
}

// ---------------------------------------------------------------------------
// Laws
// ---------------------------------------------------------------------------

/// The value of a hexadecimal digit.
pub open spec fn digit_value(ch: char) -> nat {
    if ch <= '9' {
        (ch as u32 - '0' as u32) as nat
    } else {
        (ch as u32 - 'a' as u32 + 10) as nat
    }
}

/// The character that an escape stands for.
pub open spec fn escape_meaning(code: char) -> char {
    if code == 'n' {
        '\n'
    } else if code == 'r' {
        '\r'
    } else if code == 't' {
        '\t'
    } else {
        code
    }
}

/// What a reader of JSON makes of the inside of a string.
pub open spec fn unescaped(text: Seq<char>) -> Seq<char>
    decreases text.len(),
{
    if text.len() == 0 {
        seq![]
    } else if text[0] != '\\' {
        seq![text[0]] + unescaped(text.skip(1))
    } else if text.len() >= 6 && text[1] == 'u' {
        seq![
            ((digit_value(text[2]) * 4096 + digit_value(text[3]) * 256 + digit_value(text[4]) * 16
                + digit_value(text[5])) as u32) as char,
        ] + unescaped(text.skip(6))
    } else if text.len() >= 2 {
        seq![escape_meaning(text[1])] + unescaped(text.skip(2))
    } else {
        seq![]
    }
}

proof fn lemma_escaped_front(value: Seq<char>, all: bool)
    ensures
        value.len() > 0 ==> escaped(value, all) == escaped_char(value[0], all) + escaped(value.skip(1), all),
    decreases value.len(),
{
    if value.len() == 1 {
        assert(value.drop_last() =~= seq![]);
        assert(value.skip(1) =~= seq![]);
        assert(escaped(value, all) =~= escaped_char(value[0], all) + escaped(value.skip(1), all));
    } else if value.len() > 1 {
        let head = value.drop_last();
        lemma_escaped_front(head, all);
        assert(head.skip(1) =~= value.skip(1).drop_last());
        assert(escaped(value, all) =~= escaped_char(value[0], all) + escaped(value.skip(1), all));
    }
}

proof fn lemma_escape_round_trip(value: Seq<char>, all: bool)
    ensures
        unescaped(escaped(value, all)) == value,
    decreases value.len(),
{
    if value.len() == 0 {
        assert(unescaped(escaped(value, all)) =~= value);
    } else {
        lemma_escaped_front(value, all);
        let ch = value[0];
        let rest = escaped(value.skip(1), all);
        let text = escaped(value, all);
        lemma_escape_round_trip(value.skip(1), all);
        match short_escape(ch) {
            Some(code) => {
                assert(text.skip(2) =~= rest);
            },
            None => {
                if is_coded(ch, all) {
                    let code = ch as u32;
                    vstd::utf8::char_u32_cast(ch, code);
                    assert(text.skip(6) =~= rest);
                    let digits = hex4(code as nat);
                    assert(text[2] == digits[0] && text[3] == digits[1] && text[4] == digits[2] && text[5]
                        == digits[3]);
                    lemma_digit(code as nat / 4096 % 16);
                    lemma_digit(code as nat / 256 % 16);
                    lemma_digit(code as nat / 16 % 16);
                    lemma_digit(code as nat % 16);
                } else {
                    assert(text.skip(1) =~= rest);
                }
            },
        }
        assert(unescaped(text) =~= seq![ch] + value.skip(1));
        assert(seq![ch] + value.skip(1) =~= value);
    }
}

proof fn lemma_digit(digit: nat)
    requires
        digit < 16,
    ensures
        digit_value(digit_char(digit)) == digit,
{
}

/// What stands in a JSON string reads back as the value that was put there.
pub proof fn law_json_escape_round_trip(value: Seq<char>)
    ensures
        unescaped(json_escaped(value)) == value,
{
    lemma_escape_round_trip(value, true);
}

/// What stands in a log value reads back as the value that was put there.
pub proof fn law_log_escape_round_trip(value: Seq<char>)
    ensures
        unescaped(log_escaped(value)) == value,
{
    lemma_escape_round_trip(value, false);
}

proof fn lemma_coded(value: Seq<char>, all: bool, at: int)
    requires
        0 <= at < escaped(value, all).len(),
    ensures
        !is_coded(escaped(value, all)[at], all),
    decreases value.len(),
{
    let before = escaped(value.drop_last(), all);
    let last = escaped_char(value.last(), all);
    if at < before.len() {
        lemma_coded(value.drop_last(), all, at);
    } else {
        assert(escaped(value, all)[at] == last[at - before.len()]);
    }
}

/// No control character stands in a JSON string as itself.
pub proof fn law_json_has_no_control_characters(value: Seq<char>, at: int)
    requires
        0 <= at < json_escaped(value).len(),
    ensures
        !is_control(json_escaped(value)[at]),
{
    lemma_coded(value, true, at);
}

/// No character that JSON forbids in a string stands in a log value as itself.
pub proof fn law_log_values_are_json(value: Seq<char>, at: int)
    requires
        0 <= at < log_escaped(value).len(),
    ensures
        log_escaped(value)[at] as u32 >= 0x20,
{
    lemma_coded(value, false, at);
}

} // verus!
