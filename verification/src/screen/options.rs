//! Command lines of the screen benchmark.
use vstd::arithmetic::power::{lemma_pow0, lemma_pow_positive, pow};
use vstd::prelude::*;
use vstd::slice::slice_to_vec;
use vstd::string::*;

use crate::magnitude::{
    digits_of, doubled_times, is_above, is_below, lemma_digits_joined, lemma_trimmed_positive, push_digits,
    read_far, side_of, stands_for, trim_zeros, value_of, Side, FAR,
};
use crate::netprobe::config::optional_text;
use crate::parse::{
    contains_text, digits_value, find_char, first_place, holds_text, is_digit, parse_unsigned, read_unsigned, split_on,
    split_text, trim, trimmed, usize_max, views,
};
use crate::screen::active_map::Variant;
use crate::screen::quantize::ColorMode;
use crate::screen::render::SyntheticScene;
use crate::text::{chars_of, decimal, push_decimal, text_eq, text_of};

verus! {

pub const HELP: &'static str = "RustAdmin deterministic AV1 screen benchmark

Usage:
  rustadmin-av1-screen-bench run [options]
  rustadmin-av1-screen-bench run-hw [options]
  rustadmin-av1-screen-bench record [options]
  rustadmin-av1-screen-bench export-bgra [options]
  rustadmin-av1-screen-bench analyze-yuv420 [options]
  rustadmin-av1-screen-bench list-displays

Run options:
  --input PATH            Replay a recorded BGRA corpus instead of synthetic input
  --output-dir PATH       Report directory (default: timestamped results directory)
  --width N               Synthetic width [default: 1280]
  --height N              Synthetic height [default: 720]
  --frames N              Synthetic frame count [default: 90]
  --fps N                 Synthetic frame rate [default: 30]
  --scene NAME            Synthetic scene: screen or mixed [default: screen]
  --repeat N              Repeat count per configuration [default: 1]
  --quality N             RustAdmin quality ratio [default: 1.0]
  --colors LIST           full,4096,256,16 [default: full]
  --variants LIST         baseline,screen-aa,adaptive-sharpness,auto-tiles,
                          intrabc,active-map,active-map-refresh,
                          active-map-warmup,active-map-hold,
                          active-map-recovery,combined
                          [default: all]
  --i444                  Encode AV1 profile 1 with I444 input
  --save-samples          Save source and decoded middle-frame BMP files

Hardware run options (Windows):
  --input PATH            Replay a recorded BGRA corpus instead of synthetic input
  --output-dir PATH       Report directory (default: timestamped results directory)
  --width N               Synthetic width [default: 1280]
  --height N              Synthetic height [default: 720]
  --frames N              Synthetic frame count [default: 90]
  --fps N                 Synthetic frame rate [default: 30]
  --scene NAME            Synthetic scene: screen or mixed [default: screen]
  --repeat N              Repeat count per configuration [default: 1]
  --qualities LIST        RustAdmin quality ratios [default: 0.25,0.5,0.67,1.0]
  --encoders LIST         FFmpeg encoder names [default: h264_nvenc,hevc_nvenc]
  --profiles LIST         Encoder profiles: default,hq [default: default,hq]
  --save-samples          Save source and decoded middle-frame BMP files

Record options:
  --output PATH           Corpus path [default: av1-screen-corpus.rasc]
  --frames N              Captured changed frames [default: 180]
  --fps N                 Nominal polling rate [default: 30]
  --idle-timeout-ms N     Stop when capture is idle [default: 30000]
  --display N             One-based display index [default: primary]
  --capture NAME          Capture backend: auto or gdi [default: auto]
  --start-delay-ms N      Wait before reading the first frame [default: 0]

BGRA export options:
  --input PATH            Recorded corpus path (required)
  --output PATH           Headerless tight BGRA output path (required)

YUV420 analysis options:
  --input PATH            Recorded BGRA corpus path (required)
  --decoded PATH          Headerless tight decoded YUV420P path (required)
  --output PATH           JSON analysis path (required)
";

// ---------------------------------------------------------------------------
// Option values
// ---------------------------------------------------------------------------

/// The option at `at`: its name, its value, and whether the value is the next
/// argument.
pub open spec fn option_at(args: Seq<Seq<char>>, at: int) -> Result<
    (Seq<char>, Seq<char>, bool),
    Seq<char>,
> {
    if at >= args.len() {
        Err("missing option"@)
    } else {
        let argument = args[at];
        let equals = first_place(argument, '=');
        if equals < argument.len() {
            let key = argument.take(equals);
            let value = argument.skip(equals + 1);
            if value.len() == 0 {
                Err("missing value for "@ + key)
            } else {
                Ok((key, value, false))
            }
        } else if at + 1 < args.len() {
            Ok((argument, args[at + 1], true))
        } else {
            Err("missing value for "@ + argument)
        }
    }
}

fn message(head: &str, tail: &str) -> (text: String)
    ensures
        text@ == head@ + tail@,
{
    let mut text = head.to_owned();
    text.append(tail);
    text
}

/// The option at `index`: its name, its value, and whether the value is the next
/// argument.
pub fn option_value(arguments: &[String], index: usize) -> (res: Result<(String, String, bool), String>)
    ensures
        match res {
            Ok((key, value, next)) => {
                &&& option_at(views(arguments@), index as int) == Ok::<
                    (Seq<char>, Seq<char>, bool),
                    Seq<char>,
                >((key@, value@, next))
                &&& index < arguments.len()
                &&& next ==> index + 1 < arguments.len()
            },
            Err(err) => option_at(views(arguments@), index as int) == Err::<
                (Seq<char>, Seq<char>, bool),
                Seq<char>,
            >(err@),
        },
{
    if index >= arguments.len() {
        return Err("missing option".to_owned());
    }
    let chars = chars_of(arguments[index].as_str());
    let equals: usize = find_char(chars.as_slice(), '=');
    assert(views(arguments@)[index as int] == chars@);
    if equals < chars.len() {
        let key = text_of(chars.as_slice(), 0, equals);
        let value = text_of(chars.as_slice(), equals + 1, chars.len());
        assert(key@ =~= chars@.take(equals as int));
        assert(value@ =~= chars@.skip(equals + 1));
        if chars.len() == equals + 1 {
            return Err(message("missing value for ", key.as_str()));
        }
        return Ok((key, value, false));
    }
    if index + 1 < arguments.len() {
        assert(views(arguments@)[index + 1] == arguments@[index + 1]@);
        Ok((arguments[index].clone(), arguments[index + 1].clone(), true))
    } else {
        Err(message("missing value for ", arguments[index].as_str()))
    }
}

/// The words for a value that is no number.
pub open spec fn invalid_value(key: Seq<char>, value: Seq<char>) -> Seq<char> {
    "invalid value for "@ + key + ": "@ + value
}

/// The number that a value writes.
pub open spec fn number(key: Seq<char>, value: Seq<char>, max: nat) -> Result<nat, Seq<char>> {
    match read_unsigned(value, max) {
        Ok(number) => Ok(number),
        Err(_) => Err(invalid_value(key, value)),
    }
}

fn invalid_message(key: &str, value: &str) -> (text: String)
    ensures
        text@ == invalid_value(key@, value@),
{
    let mut text = "invalid value for ".to_owned();
    text.append(key);
    text.append(": ");
    text.append(value);
    text
}

/// Parses a number of at most `max`.
pub fn parse_number(key: &str, value: &str, max: u64) -> (res: Result<u64, String>)
    ensures
        match res {
            Ok(out) => number(key@, value@, max as nat) == Ok::<nat, Seq<char>>(out as nat) && out <= max,
            Err(err) => number(key@, value@, max as nat) == Err::<nat, Seq<char>>(err@),
        },
{
    match parse_unsigned(value, max) {
        Ok(out) => {
            proof {
                crate::parse::lemma_read_bounded(value@, max as nat);
            }
            Ok(out)
        },
        Err(_) => Err(invalid_message(key, value)),
    }
}

fn parse_usize(key: &str, value: &str) -> (res: Result<usize, String>)
    ensures
        match res {
            Ok(out) => number(key@, value@, usize::MAX as nat) == Ok::<nat, Seq<char>>(out as nat),
            Err(err) => number(key@, value@, usize::MAX as nat) == Err::<nat, Seq<char>>(err@),
        },
{
    match parse_number(key, value, usize_max()) {
        Ok(out) => Ok(out as usize),
        Err(err) => Err(err),
    }
}

fn parse_u32(key: &str, value: &str) -> (res: Result<u32, String>)
    ensures
        match res {
            Ok(out) => number(key@, value@, u32::MAX as nat) == Ok::<nat, Seq<char>>(out as nat),
            Err(err) => number(key@, value@, u32::MAX as nat) == Err::<nat, Seq<char>>(err@),
        },
{
    match parse_number(key, value, u32::MAX as u64) {
        Ok(out) => Ok(out as u32),
        Err(err) => Err(err),
    }
}

fn parse_u64(key: &str, value: &str) -> (res: Result<u64, String>)
    ensures
        match res {
            Ok(out) => number(key@, value@, u64::MAX as nat) == Ok::<nat, Seq<char>>(out as nat),
            Err(err) => number(key@, value@, u64::MAX as nat) == Err::<nat, Seq<char>>(err@),
        },
{
    parse_number(key, value, u64::MAX)
}

// ---------------------------------------------------------------------------
// Decimal fractions
// ---------------------------------------------------------------------------

/// How many digits a text starts with.
pub open spec fn digit_run(value: Seq<char>) -> nat
    decreases value.len(),
{
    if value.len() > 0 && is_digit(value[0]) {
        1 + digit_run(value.skip(1))
    } else {
        0
    }
}

/// A text without a leading sign.
pub open spec fn unsigned_part(value: Seq<char>) -> Seq<char> {
    if value.len() > 0 && (value[0] == '+' || value[0] == '-') {
        value.skip(1)
    } else {
        value
    }
}

/// Whether a text is one or more digits and nothing else.
pub open spec fn is_digits(value: Seq<char>) -> bool {
    value.len() > 0 && digit_run(value) == value.len()
}

/// Whether a text is empty or an exponent.
pub open spec fn is_exponent_or_nothing(value: Seq<char>) -> bool {
    value.len() == 0 || ((value[0] == 'e' || value[0] == 'E') && is_digits(unsigned_part(value.skip(1))))
}

/// Whether a text is a decimal fraction with an optional exponent.
pub open spec fn is_fraction(value: Seq<char>) -> bool {
    let whole = digit_run(value) as int;
    if whole < value.len() && value[whole] == '.' {
        let rest = value.skip(whole + 1);
        let part = digit_run(rest) as int;
        whole + part > 0 && is_exponent_or_nothing(rest.skip(part))
    } else {
        whole > 0 && is_exponent_or_nothing(value.skip(whole))
    }
}

/// Whether two texts differ at most in the case of ASCII letters; `word` is in
/// lower case.
pub open spec fn same_word(value: Seq<char>, word: Seq<char>) -> bool {
    value.len() == word.len() && forall|i: int|
        0 <= i < value.len() ==> lower(#[trigger] value[i]) == word[i] as u32
}

/// The code of a character, that of the small letter for a capital.
pub open spec fn lower(ch: char) -> u32 {
    if 0x41 <= ch as u32 <= 0x5a {
        (ch as u32 + 0x20) as u32
    } else {
        ch as u32
    }
}

/// Whether a text writes a floating-point number: an optional sign, then a
/// decimal fraction, `inf`, `infinity` or `nan`.
pub open spec fn is_float(value: Seq<char>) -> bool {
    let rest = unsigned_part(value);
    ||| is_fraction(rest)
    ||| same_word(rest, seq!['i', 'n', 'f'])
    ||| same_word(rest, seq!['i', 'n', 'f', 'i', 'n', 'i', 't', 'y'])
    ||| same_word(rest, seq!['n', 'a', 'n'])
}

/// The digits of a decimal fraction, those before the point and those behind it.
pub open spec fn fraction_digits(value: Seq<char>) -> Seq<char> {
    let whole = digit_run(value) as int;
    if whole < value.len() && value[whole] == '.' {
        let rest = value.skip(whole + 1);
        value.take(whole) + rest.take(digit_run(rest) as int)
    } else {
        value.take(whole)
    }
}

/// What an exponent says, zero where there is none.
pub open spec fn exponent_value(value: Seq<char>) -> int {
    if value.len() == 0 {
        0
    } else {
        let number = digits_value(unsigned_part(value.skip(1))) as int;
        if value.len() > 1 && value[1] == '-' {
            -number
        } else {
            number
        }
    }
}

/// The power of ten by which the digits of a decimal fraction are multiplied.
pub open spec fn fraction_exponent(value: Seq<char>) -> int {
    let whole = digit_run(value) as int;
    if whole < value.len() && value[whole] == '.' {
        let rest = value.skip(whole + 1);
        let part = digit_run(rest) as int;
        exponent_value(rest.skip(part)) - part
    } else {
        exponent_value(value.skip(whole))
    }
}

/// Whether the single-precision number nearest to a decimal fraction is neither
/// zero nor infinite: the fraction is above half of the smallest such number,
/// 2^-149, and below 2^128 - 2^103, the middle between the largest one and the
/// next power of two. A fraction in the middle goes to the even side, to zero or
/// to infinity.
pub open spec fn is_single(value: Seq<char>) -> bool {
    let number = digits_value(fraction_digits(value)) as int;
    let exponent = fraction_exponent(value);
    &&& is_above(number * pow(2, 150), exponent, 1)
    &&& is_below(number, exponent, 33_554_431 * pow(2, 103))
}

/// Whether a text writes a number that is positive and finite in single
/// precision.
pub open spec fn is_positive(value: Seq<char>) -> bool {
    let rest = unsigned_part(value);
    &&& !(value.len() > 0 && value[0] == '-')
    &&& is_fraction(rest)
    &&& is_single(rest)
}

proof fn lemma_digit_run(value: Seq<char>)
    ensures
        digit_run(value) <= value.len(),
        forall|i: int| 0 <= i < digit_run(value) ==> is_digit(#[trigger] value[i]),
    decreases value.len(),
{
    if value.len() > 0 && is_digit(value[0]) {
        lemma_digit_run(value.skip(1));
        assert forall|i: int| 0 <= i < digit_run(value) implies is_digit(#[trigger] value[i]) by {
            if i > 0 {
                assert(value.skip(1)[i - 1] == value[i]);
            }
        }
    }
}

/// What an exponent says, or a number that is far out where that is.
fn far_exponent(chars: &[char], from: usize) -> (exponent: i128)
    requires
        from <= chars.len(),
        is_exponent_or_nothing(chars@.skip(from as int)),
    ensures
        -0x100 * FAR < exponent < 0x100 * FAR,
        exponent == exponent_value(chars@.skip(from as int)) || (exponent >= 2 * FAR && exponent_value(
            chars@.skip(from as int),
        ) >= 2 * FAR) || (exponent <= -2 * FAR && exponent_value(chars@.skip(from as int)) <= -2 * FAR),
{
    let ghost rest = chars@.skip(from as int);
    if from == chars.len() {
        return 0;
    }
    assert(rest.skip(1) =~= chars@.skip(from + 1));
    let start: usize = skip_sign(chars, from + 1);
    let ghost digits = chars@.skip(start as int);
    proof {
        lemma_digit_run(digits);
        assert forall|i: int| start <= i < chars.len() implies is_digit(#[trigger] chars@[i]) by {
            assert(digits[i - start] == chars@[i]);
        }
    }
    let number: i128 = read_far(chars, start);
    assert(rest.len() > 1 ==> rest[1] == chars@[from + 1]);
    if from + 1 < chars.len() && chars[from + 1] == '-' {
        -number
    } else {
        number
    }
}

/// Whether the single-precision number nearest to a decimal fraction is neither
/// zero nor infinite.
fn single(chars: &[char], from: usize) -> (yes: bool)
    requires
        from <= chars.len(),
        is_fraction(chars@.skip(from as int)),
    ensures
        yes == is_single(chars@.skip(from as int)),
{
    let ghost value = chars@.skip(from as int);
    let ghost written = digits_value(fraction_digits(value)) as int;
    let ghost meant = fraction_exponent(value);
    let whole: usize = count_digits(chars, from);
    let dot: usize = from + whole;
    proof {
        lemma_digit_run(value);
        assert forall|i: int| from <= i < dot implies is_digit(#[trigger] chars@[i]) by {
            assert(value[i - from] == chars@[i]);
        }
        assert(value.take(whole as int) =~= chars@.subrange(from as int, dot as int));
        assert(chars@.len() == chars.len());
    }
    let mut digits: Vec<u8> = Vec::new();
    let exponent: i128;
    if dot < chars.len() && chars[dot] == '.' {
        assert(value[whole as int] == '.');
        let ghost rest = value.skip(whole + 1);
        assert(rest =~= chars@.skip(dot + 1));
        let part: usize = count_digits(chars, dot + 1);
        let end: usize = dot + 1 + part;
        proof {
            lemma_digit_run(rest);
            assert forall|i: int| dot < i < end implies is_digit(#[trigger] chars@[i]) by {
                assert(rest[i - dot - 1] == chars@[i]);
            }
            assert(rest.take(part as int) =~= chars@.subrange(dot + 1, end as int));
            assert(rest.skip(part as int) =~= chars@.skip(end as int));
            lemma_digits_joined(value.take(whole as int), rest.take(part as int));
            lemma_pow0(10);
        }
        push_digits(&mut digits, chars, dot + 1, end);
        push_digits(&mut digits, chars, from, dot);
        exponent = far_exponent(chars, end) - part as i128;
    } else {
        assert(value.skip(whole as int) =~= chars@.skip(dot as int));
        proof {
            lemma_pow0(10);
        }
        push_digits(&mut digits, chars, from, dot);
        exponent = far_exponent(chars, dot);
    }
    assert(value_of(digits@) == written);
    assert(stands_for(exponent as int, meant));
    let number = trim_zeros(digits);
    if number.len() == 0 {
        proof {
            lemma_zero_is_not_above(meant);
        }
        return false;
    }
    let scaled = doubled_times(slice_to_vec(number.as_slice()), 150);
    proof {
        lemma_pow_positive(2, 150);
        lemma_trimmed_positive(number@);
        let unit = pow(2, 150);
        assert(written * unit > 0) by (nonlinear_arith)
            requires
                written > 0,
                unit > 0,
        ;
        lemma_trimmed_positive(scaled@);
    }
    let one = digits_of(1);
    let limit = doubled_times(digits_of(33_554_431), 103);
    proof {
        lemma_pow_positive(2, 103);
        lemma_trimmed_positive(one@);
        lemma_trimmed_positive(limit@);
    }
    side_of(&scaled, exponent, &one, Ghost(meant)) == Side::Above && side_of(
        &number,
        exponent,
        &limit,
        Ghost(meant),
    ) == Side::Below
}

proof fn lemma_zero_is_not_above(exponent: int)
    ensures
        !is_above(0 * pow(2, 150), exponent, 1),
{
    let unit = pow(2, 150);
    assert(0 * unit == 0) by (nonlinear_arith);
    if exponent >= 0 {
        let scale = pow(10, exponent as nat);
        assert(0 * scale == 0) by (nonlinear_arith);
    } else {
        lemma_pow_positive(10, (-exponent) as nat);
    }
}

/// Whether a text writes a number that is positive and finite in single
/// precision.
pub fn positive_text(value: &str) -> (yes: bool)
    ensures
        yes == is_positive(value@),
{
    let chars = chars_of(value);
    assert(chars@.skip(0) =~= chars@);
    if chars.len() > 0 && chars[0] == '-' {
        return false;
    }
    let start: usize = skip_sign(chars.as_slice(), 0);
    fraction(chars.as_slice(), start) && single(chars.as_slice(), start)
}

fn count_digits(chars: &[char], from: usize) -> (count: usize)
    requires
        from <= chars.len(),
    ensures
        count == digit_run(chars@.skip(from as int)),
        from + count <= chars.len(),
{
    let mut at: usize = from;
    while at < chars.len() && is_digit_char(chars[at])
        invariant
            from <= at <= chars.len(),
            digit_run(chars@.skip(from as int)) == (at - from) + digit_run(chars@.skip(at as int)),
        decreases chars.len() - at,
    {
        assert(chars@.skip(at as int).skip(1) =~= chars@.skip(at + 1));
        at += 1;
    }
    at - from
}

fn is_digit_char(ch: char) -> (yes: bool)
    ensures
        yes == is_digit(ch),
{
    let code: u32 = ch as u32;
    0x30 <= code && code <= 0x39
}

fn exponent_or_nothing(chars: &[char], from: usize) -> (yes: bool)
    requires
        from <= chars.len(),
    ensures
        yes == is_exponent_or_nothing(chars@.skip(from as int)),
{
    let ghost rest = chars@.skip(from as int);
    if from == chars.len() {
        return true;
    }
    assert(rest[0] == chars@[from as int]);
    if chars[from] != 'e' && chars[from] != 'E' {
        return false;
    }
    assert(rest.skip(1) =~= chars@.skip(from + 1));
    let start: usize = skip_sign(chars, from + 1);
    let digits: usize = count_digits(chars, start);
    digits > 0 && start + digits == chars.len()
}

fn skip_sign(chars: &[char], from: usize) -> (start: usize)
    requires
        from <= chars.len(),
    ensures
        from <= start <= chars.len(),
        chars@.skip(start as int) == unsigned_part(chars@.skip(from as int)),
{
    let ghost rest = chars@.skip(from as int);
    if from < chars.len() && (chars[from] == '+' || chars[from] == '-') {
        assert(rest.skip(1) =~= chars@.skip(from + 1));
        from + 1
    } else {
        from
    }
}

fn fraction(chars: &[char], from: usize) -> (yes: bool)
    requires
        from <= chars.len(),
    ensures
        yes == is_fraction(chars@.skip(from as int)),
{
    let ghost value = chars@.skip(from as int);
    let whole: usize = count_digits(chars, from);
    let dot: usize = from + whole;
    if dot < chars.len() && chars[dot] == '.' {
        assert(value[whole as int] == '.');
        assert(value.skip(whole + 1) =~= chars@.skip(dot + 1));
        let part: usize = count_digits(chars, dot + 1);
        assert(chars@.skip(dot + 1).skip(part as int) =~= chars@.skip(dot + 1 + part));
        (whole > 0 || part > 0) && exponent_or_nothing(chars, dot + 1 + part)
    } else {
        assert(value.skip(whole as int) =~= chars@.skip(dot as int));
        whole > 0 && exponent_or_nothing(chars, dot)
    }
}

fn word_at(chars: &[char], from: usize, word: &[char]) -> (yes: bool)
    requires
        from <= chars.len(),
    ensures
        yes == same_word(chars@.skip(from as int), word@),
{
    let ghost value = chars@.skip(from as int);
    if chars.len() - from != word.len() {
        return false;
    }
    let mut i: usize = 0;
    while i < word.len()
        invariant
            i <= word.len(),
            from + word.len() == chars.len(),
            value == chars@.skip(from as int),
            forall|k: int| 0 <= k < i ==> lower(#[trigger] value[k]) == word@[k] as u32,
        decreases word.len() - i,
    {
        let code: u32 = chars[from + i] as u32;
        let small: u32 = if 0x41 <= code && code <= 0x5a { code + 0x20 } else { code };
        assert(small == lower(value[i as int]));
        if small != word[i] as u32 {
            return false;
        }
        i += 1;
    }
    true
}

/// Whether a text writes a floating-point number.
pub fn float_text(value: &str) -> (yes: bool)
    ensures
        yes == is_float(value@),
{
    let chars = chars_of(value);
    assert(chars@.skip(0) =~= chars@);
    let start: usize = skip_sign(chars.as_slice(), 0);
    let mut inf: Vec<char> = Vec::new();
    inf.push('i');
    inf.push('n');
    inf.push('f');
    assert(inf@ =~= seq!['i', 'n', 'f']);
    let mut nan: Vec<char> = Vec::new();
    nan.push('n');
    nan.push('a');
    nan.push('n');
    assert(nan@ =~= seq!['n', 'a', 'n']);
    let mut infinity: Vec<char> = Vec::new();
    infinity.push('i');
    infinity.push('n');
    infinity.push('f');
    infinity.push('i');
    infinity.push('n');
    infinity.push('i');
    infinity.push('t');
    infinity.push('y');
    assert(infinity@ =~= seq!['i', 'n', 'f', 'i', 'n', 'i', 't', 'y']);
    fraction(chars.as_slice(), start) || word_at(chars.as_slice(), start, inf.as_slice()) || word_at(
        chars.as_slice(),
        start,
        infinity.as_slice(),
    ) || word_at(chars.as_slice(), start, nan.as_slice())
}

/// The text of a number, checked to be one.
pub open spec fn fraction_value(key: Seq<char>, value: Seq<char>) -> Result<Seq<char>, Seq<char>> {
    if is_float(value) {
        Ok(value)
    } else {
        Err(invalid_value(key, value))
    }
}

fn parse_fraction(key: &str, value: &str) -> (res: Result<String, String>)
    ensures
        match res {
            Ok(out) => fraction_value(key@, value@) == Ok::<Seq<char>, Seq<char>>(out@),
            Err(err) => fraction_value(key@, value@) == Err::<Seq<char>, Seq<char>>(err@),
        },
{
    if float_text(value) {
        Ok(value.to_owned())
    } else {
        Err(invalid_message(key, value))
    }
}

// ---------------------------------------------------------------------------
// Lists
// ---------------------------------------------------------------------------

/// The color modes that words name, each once, in the order of first mention; the
/// first unknown word is the error.
pub open spec fn colors_named(words: Seq<Seq<char>>) -> Result<Seq<ColorMode>, Seq<char>>
    decreases words.len(),
{
    if words.len() == 0 {
        Ok(seq![])
    } else {
        match colors_named(words.drop_last()) {
            Err(err) => Err(err),
            Ok(found) => match ColorMode::named(words.last()) {
                None => Err("unknown color mode: "@ + words.last()),
                Some(item) => Ok(
                    if found.contains(item) {
                        found
                    } else {
                        found.push(item)
                    },
                ),
            },
        }
    }
}

proof fn lemma_colors_named_error(words: Seq<Seq<char>>, upto: int)
    requires
        0 <= upto <= words.len(),
        colors_named(words.take(upto)) is Err,
    ensures
        colors_named(words) == colors_named(words.take(upto)),
    decreases words.len() - upto,
{
    if upto == words.len() {
        assert(words.take(upto) =~= words);
    } else {
        assert(words.take(upto + 1).drop_last() =~= words.take(upto));
        lemma_colors_named_error(words, upto + 1);
    }
}

fn color_words(words: &[String]) -> (res: Result<Vec<ColorMode>, String>)
    ensures
        match res {
            Ok(items) => colors_named(views(words@)) == Ok::<Seq<ColorMode>, Seq<char>>(items@),
            Err(err) => colors_named(views(words@)) == Err::<Seq<ColorMode>, Seq<char>>(err@),
        },
{
    let mut items: Vec<ColorMode> = Vec::new();
    let ghost all = views(words@);
    let mut i: usize = 0;
    assert(all.take(0) =~= seq![]);
    assert(items@ =~= seq![]);
    while i < words.len()
        invariant
            i <= words.len(),
            all == views(words@),
            colors_named(all.take(i as int)) == Ok::<Seq<ColorMode>, Seq<char>>(items@),
        decreases words.len() - i,
    {
        let ghost more = all.take(i + 1);
        proof {
            assert(more.drop_last() =~= all.take(i as int));
            assert(more.last() == words@[i as int]@);
        }
        let word = words[i].as_str();
        match ColorMode::parse(word) {
            None => {
                proof {
                    lemma_colors_named_error(all, i + 1);
                }
                return Err(message("unknown color mode: ", word));
            },
            Some(item) => {
                let mut known = false;
                let mut k: usize = 0;
                while k < items.len() && !known
                    invariant
                        k <= items.len(),
                        known <==> exists|j: int| 0 <= j < k && items@[j] == item,
                    decreases items.len() - k,
                {
                    if items[k] == item {
                        known = true;
                    }
                    k += 1;
                }
                assert(known == items@.contains(item));
                if !known {
                    items.push(item);
                }
            },
        }
        i += 1;
    }
    assert(all.take(i as int) =~= all);
    Ok(items)
}

/// The colour modes of a comma-separated list.
pub fn parse_colors(value: &str) -> (res: Result<Vec<ColorMode>, String>)
    ensures
        match res {
            Ok(modes) => colors_named(split_on(value@, ',')) == Ok::<Seq<ColorMode>, Seq<char>>(modes@),
            Err(err) => colors_named(split_on(value@, ',')) == Err::<Seq<ColorMode>, Seq<char>>(err@),
        },
{
    let words = split_text(value, ',');
    color_words(words.as_slice())
}

/// The variants that words name, each once, in the order of first mention; the
/// first unknown word is the error.
pub open spec fn variants_named(words: Seq<Seq<char>>) -> Result<Seq<Variant>, Seq<char>>
    decreases words.len(),
{
    if words.len() == 0 {
        Ok(seq![])
    } else {
        match variants_named(words.drop_last()) {
            Err(err) => Err(err),
            Ok(found) => match Variant::named(words.last()) {
                None => Err("unknown variant: "@ + words.last()),
                Some(item) => Ok(
                    if found.contains(item) {
                        found
                    } else {
                        found.push(item)
                    },
                ),
            },
        }
    }
}

proof fn lemma_variants_named_error(words: Seq<Seq<char>>, upto: int)
    requires
        0 <= upto <= words.len(),
        variants_named(words.take(upto)) is Err,
    ensures
        variants_named(words) == variants_named(words.take(upto)),
    decreases words.len() - upto,
{
    if upto == words.len() {
        assert(words.take(upto) =~= words);
    } else {
        assert(words.take(upto + 1).drop_last() =~= words.take(upto));
        lemma_variants_named_error(words, upto + 1);
    }
}

fn variant_words(words: &[String]) -> (res: Result<Vec<Variant>, String>)
    ensures
        match res {
            Ok(items) => variants_named(views(words@)) == Ok::<Seq<Variant>, Seq<char>>(items@),
            Err(err) => variants_named(views(words@)) == Err::<Seq<Variant>, Seq<char>>(err@),
        },
{
    let mut items: Vec<Variant> = Vec::new();
    let ghost all = views(words@);
    let mut i: usize = 0;
    assert(all.take(0) =~= seq![]);
    assert(items@ =~= seq![]);
    while i < words.len()
        invariant
            i <= words.len(),
            all == views(words@),
            variants_named(all.take(i as int)) == Ok::<Seq<Variant>, Seq<char>>(items@),
        decreases words.len() - i,
    {
        let ghost more = all.take(i + 1);
        proof {
            assert(more.drop_last() =~= all.take(i as int));
            assert(more.last() == words@[i as int]@);
        }
        let word = words[i].as_str();
        match Variant::parse(word) {
            None => {
                proof {
                    lemma_variants_named_error(all, i + 1);
                }
                return Err(message("unknown variant: ", word));
            },
            Some(item) => {
                let mut known = false;
                let mut k: usize = 0;
                while k < items.len() && !known
                    invariant
                        k <= items.len(),
                        known <==> exists|j: int| 0 <= j < k && items@[j] == item,
                    decreases items.len() - k,
                {
                    if items[k] == item {
                        known = true;
                    }
                    k += 1;
                }
                assert(known == items@.contains(item));
                if !known {
                    items.push(item);
                }
            },
        }
        i += 1;
    }
    assert(all.take(i as int) =~= all);
    Ok(items)
}

/// The variants of a comma-separated list, all of them for `all`.
pub open spec fn variant_list(value: Seq<char>) -> Result<Seq<Variant>, Seq<char>> {
    if value == "all"@ {
        Ok(Variant::listed())
    } else {
        variants_named(split_on(value, ','))
    }
}

pub fn parse_variants(value: &str) -> (res: Result<Vec<Variant>, String>)
    ensures
        match res {
            Ok(variants) => variant_list(value@) == Ok::<Seq<Variant>, Seq<char>>(variants@),
            Err(err) => variant_list(value@) == Err::<Seq<Variant>, Seq<char>>(err@),
        },
{
    if text_eq(value, "all") {
        return Ok(Variant::all());
    }
    let words = split_text(value, ',');
    variant_words(words.as_slice())
}

/// How a hardware encoder is set up.
#[derive(Clone, Copy, Debug, PartialEq, Eq, Structural)]
pub enum HwEncoderProfile {
    Default,
    HighQuality,
}

impl HwEncoderProfile {
    /// The profile's name.
    pub open spec fn name(self) -> Seq<char> {
        match self {
            HwEncoderProfile::Default => "default"@,
            HwEncoderProfile::HighQuality => "hq"@,
        }
    }

    /// The profile that a word names.
    pub open spec fn named(value: Seq<char>) -> Option<HwEncoderProfile> {
        if value == "default"@ {
            Some(HwEncoderProfile::Default)
        } else if value == "hq"@ {
            Some(HwEncoderProfile::HighQuality)
        } else {
            None
        }
    }

    fn parse(value: &str) -> (profile: Option<HwEncoderProfile>)
        ensures
            profile == HwEncoderProfile::named(value@),
    {
        if text_eq(value, "default") {
            Some(HwEncoderProfile::Default)
        } else if text_eq(value, "hq") {
            Some(HwEncoderProfile::HighQuality)
        } else {
            None
        }
    }
}

pub fn profile_label(profile: HwEncoderProfile) -> (text: &'static str)
    ensures
        text@ == profile.name(),
{
    match profile {
        HwEncoderProfile::Default => "default",
        HwEncoderProfile::HighQuality => "hq",
    }
}

/// The encoder profiles that words name, each once, in the order of first mention;
/// the first unknown word is the error.
pub open spec fn profiles_named(words: Seq<Seq<char>>) -> Result<Seq<HwEncoderProfile>, Seq<char>>
    decreases words.len(),
{
    if words.len() == 0 {
        Ok(seq![])
    } else {
        match profiles_named(words.drop_last()) {
            Err(err) => Err(err),
            Ok(found) => match HwEncoderProfile::named(words.last()) {
                None => Err("unknown hardware encoder profile: "@ + words.last()),
                Some(item) => Ok(
                    if found.contains(item) {
                        found
                    } else {
                        found.push(item)
                    },
                ),
            },
        }
    }
}

proof fn lemma_profiles_named_error(words: Seq<Seq<char>>, upto: int)
    requires
        0 <= upto <= words.len(),
        profiles_named(words.take(upto)) is Err,
    ensures
        profiles_named(words) == profiles_named(words.take(upto)),
    decreases words.len() - upto,
{
    if upto == words.len() {
        assert(words.take(upto) =~= words);
    } else {
        assert(words.take(upto + 1).drop_last() =~= words.take(upto));
        lemma_profiles_named_error(words, upto + 1);
    }
}

fn profile_words(words: &[String]) -> (res: Result<Vec<HwEncoderProfile>, String>)
    ensures
        match res {
            Ok(items) => profiles_named(views(words@)) == Ok::<Seq<HwEncoderProfile>, Seq<char>>(items@),
            Err(err) => profiles_named(views(words@)) == Err::<Seq<HwEncoderProfile>, Seq<char>>(err@),
        },
{
    let mut items: Vec<HwEncoderProfile> = Vec::new();
    let ghost all = views(words@);
    let mut i: usize = 0;
    assert(all.take(0) =~= seq![]);
    assert(items@ =~= seq![]);
    while i < words.len()
        invariant
            i <= words.len(),
            all == views(words@),
            profiles_named(all.take(i as int)) == Ok::<Seq<HwEncoderProfile>, Seq<char>>(items@),
        decreases words.len() - i,
    {
        let ghost more = all.take(i + 1);
        proof {
            assert(more.drop_last() =~= all.take(i as int));
            assert(more.last() == words@[i as int]@);
        }
        let word = words[i].as_str();
        match HwEncoderProfile::parse(word) {
            None => {
                proof {
                    lemma_profiles_named_error(all, i + 1);
                }
                return Err(message("unknown hardware encoder profile: ", word));
            },
            Some(item) => {
                let mut known = false;
                let mut k: usize = 0;
                while k < items.len() && !known
                    invariant
                        k <= items.len(),
                        known <==> exists|j: int| 0 <= j < k && items@[j] == item,
                    decreases items.len() - k,
                {
                    if items[k] == item {
                        known = true;
                    }
                    k += 1;
                }
                assert(known == items@.contains(item));
                if !known {
                    items.push(item);
                }
            },
        }
        i += 1;
    }
    assert(all.take(i as int) =~= all);
    Ok(items)
}

/// The words that are not empty.
pub open spec fn filled(words: Seq<Seq<char>>) -> Seq<Seq<char>>
    decreases words.len(),
{
    if words.len() == 0 {
        seq![]
    } else if words.last().len() == 0 {
        filled(words.drop_last())
    } else {
        filled(words.drop_last()).push(words.last())
    }
}

/// The words of a comma-separated list, trimmed.
pub open spec fn trimmed_words(words: Seq<Seq<char>>) -> Seq<Seq<char>> {
    words.map_values(|word: Seq<char>| trimmed(word))
}

fn filled_words(words: Vec<String>) -> (out: Vec<String>)
    ensures
        views(out@) == filled(views(words@)),
{
    let ghost all = views(words@);
    let mut out: Vec<String> = Vec::new();
    let mut i: usize = 0;
    assert(all.take(0) =~= seq![]);
    assert(views(out@) =~= seq![]);
    while i < words.len()
        invariant
            i <= words.len(),
            all == views(words@),
            views(out@) == filled(all.take(i as int)),
        decreases words.len() - i,
    {
        let ghost before = views(out@);
        proof {
            assert(all.take(i + 1).drop_last() =~= all.take(i as int));
            assert(all.take(i + 1).last() == words@[i as int]@);
        }
        if !words[i].as_str().is_empty() {
            let word = words[i].clone();
            out.push(word);
            assert(views(out@) =~= before.push(words@[i as int]@));
        }
        i += 1;
    }
    assert(all.take(i as int) =~= all);
    out
}

fn trim_words(words: Vec<String>) -> (out: Vec<String>)
    ensures
        views(out@) == trimmed_words(views(words@)),
{
    let mut out: Vec<String> = Vec::new();
    let mut i: usize = 0;
    while i < words.len()
        invariant
            i <= words.len(),
            out.len() == i,
            forall|k: int| 0 <= k < i ==> #[trigger] out@[k]@ == trimmed(words@[k]@),
        decreases words.len() - i,
    {
        out.push(trim(words[i].as_str()));
        i += 1;
    }
    assert(views(out@) =~= trimmed_words(views(words@)));
    out
}

/// The profiles of a comma-separated list; white space and empty words do not
/// count.
pub open spec fn profile_list(value: Seq<char>) -> Result<Seq<HwEncoderProfile>, Seq<char>> {
    match profiles_named(filled(trimmed_words(split_on(value, ',')))) {
        Err(err) => Err(err),
        Ok(profiles) => if profiles.len() == 0 {
            Err("hardware encoder profile list must not be empty"@)
        } else {
            Ok(profiles)
        },
    }
}

pub fn parse_hardware_profiles(value: &str) -> (res: Result<Vec<HwEncoderProfile>, String>)
    ensures
        match res {
            Ok(profiles) => profile_list(value@) == Ok::<Seq<HwEncoderProfile>, Seq<char>>(profiles@),
            Err(err) => profile_list(value@) == Err::<Seq<HwEncoderProfile>, Seq<char>>(err@),
        },
{
    let words = filled_words(trim_words(split_text(value, ',')));
    let profiles = profile_words(words.as_slice())?;
    if profiles.len() == 0 {
        return Err("hardware encoder profile list must not be empty".to_owned());
    }
    Ok(profiles)
}

/// The words of a comma-separated list that are not empty, at least one.
pub open spec fn string_list(key: Seq<char>, value: Seq<char>) -> Result<Seq<Seq<char>>, Seq<char>> {
    let words = filled(split_on(value, ','));
    if words.len() == 0 {
        Err(key + " requires at least one value"@)
    } else {
        Ok(words)
    }
}

pub fn parse_string_list(key: &str, value: &str) -> (res: Result<Vec<String>, String>)
    ensures
        match res {
            Ok(words) => string_list(key@, value@) == Ok::<Seq<Seq<char>>, Seq<char>>(views(words@)),
            Err(err) => string_list(key@, value@) == Err::<Seq<Seq<char>>, Seq<char>>(err@),
        },
{
    let words = filled_words(split_text(value, ','));
    assert(views(words@).len() == words.len());
    if words.len() == 0 {
        Err(message(key, " requires at least one value"))
    } else {
        Ok(words)
    }
}

/// The numbers of a list, as texts; the first word that is no number is the
/// error.
pub open spec fn fractions_of(key: Seq<char>, words: Seq<Seq<char>>) -> Result<Seq<Seq<char>>, Seq<char>>
    decreases words.len(),
{
    if words.len() == 0 {
        Ok(seq![])
    } else {
        match fractions_of(key, words.drop_last()) {
            Err(err) => Err(err),
            Ok(found) => match fraction_value(key, words.last()) {
                Err(err) => Err(err),
                Ok(value) => Ok(found.push(value)),
            },
        }
    }
}

proof fn lemma_fractions_error(key: Seq<char>, words: Seq<Seq<char>>, upto: int)
    requires
        0 <= upto <= words.len(),
        fractions_of(key, words.take(upto)) is Err,
    ensures
        fractions_of(key, words) == fractions_of(key, words.take(upto)),
    decreases words.len() - upto,
{
    if upto == words.len() {
        assert(words.take(upto) =~= words);
    } else {
        assert(words.take(upto + 1).drop_last() =~= words.take(upto));
        lemma_fractions_error(key, words, upto + 1);
    }
}

/// The numbers of a comma-separated list, as texts.
pub fn parse_float_list(key: &str, value: &str) -> (res: Result<Vec<String>, String>)
    ensures
        match res {
            Ok(texts) => fractions_of(key@, split_on(value@, ',')) == Ok::<Seq<Seq<char>>, Seq<char>>(
                views(texts@),
            ),
            Err(err) => fractions_of(key@, split_on(value@, ',')) == Err::<Seq<Seq<char>>, Seq<char>>(
                err@,
            ),
        },
{
    let words = split_text(value, ',');
    let ghost all = views(words@);
    let mut out: Vec<String> = Vec::new();
    let mut i: usize = 0;
    assert(all.take(0) =~= seq![]);
    assert(views(out@) =~= seq![]);
    while i < words.len()
        invariant
            i <= words.len(),
            all == views(words@),
            all == split_on(value@, ','),
            fractions_of(key@, all.take(i as int)) == Ok::<Seq<Seq<char>>, Seq<char>>(views(out@)),
        decreases words.len() - i,
    {
        let ghost before = views(out@);
        proof {
            assert(all.take(i + 1).drop_last() =~= all.take(i as int));
            assert(all.take(i + 1).last() == words@[i as int]@);
        }
        match parse_fraction(key, words[i].as_str()) {
            Err(err) => {
                proof {
                    lemma_fractions_error(key@, all, i + 1);
                }
                return Err(err);
            },
            Ok(text) => {
                let ghost shown = text@;
                out.push(text);
                assert(views(out@) =~= before.push(shown));
            },
        }
        i += 1;
    }
    assert(all.take(i as int) =~= all);
    Ok(out)
}

/// The scene that a value names.
pub open spec fn scene_value(value: Seq<char>) -> Result<SyntheticScene, Seq<char>> {
    match SyntheticScene::named(value) {
        Some(scene) => Ok(scene),
        None => Err("unknown synthetic scene: "@ + value),
    }
}

fn parse_scene(value: &str) -> (res: Result<SyntheticScene, String>)
    ensures
        match res {
            Ok(scene) => scene_value(value@) == Ok::<SyntheticScene, Seq<char>>(scene),
            Err(err) => scene_value(value@) == Err::<SyntheticScene, Seq<char>>(err@),
        },
{
    match SyntheticScene::parse(value) {
        Some(scene) => Ok(scene),
        None => Err(message("unknown synthetic scene: ", value)),
    }
}

/// Whether a capture backend is the one that reads the screen by GDI.
pub open spec fn capture_value(value: Seq<char>) -> Result<bool, Seq<char>> {
    if value == "auto"@ {
        Ok(false)
    } else if value == "gdi"@ {
        Ok(true)
    } else {
        Err("unknown capture backend: "@ + value)
    }
}

fn parse_capture(value: &str) -> (res: Result<bool, String>)
    ensures
        match res {
            Ok(force_gdi) => capture_value(value@) == Ok::<bool, Seq<char>>(force_gdi),
            Err(err) => capture_value(value@) == Err::<bool, Seq<char>>(err@),
        },
{
    if text_eq(value, "auto") {
        Ok(false)
    } else if text_eq(value, "gdi") {
        Ok(true)
    } else {
        Err(message("unknown capture backend: ", value))
    }
}

// ---------------------------------------------------------------------------
// Run
// ---------------------------------------------------------------------------

/// What a software run is asked to do. The quality is the text of a number.
#[derive(Debug)]
pub struct RunOptions {
    pub input: Option<String>,
    pub output_dir: String,
    pub width: usize,
    pub height: usize,
    pub frames: usize,
    pub fps: u32,
    pub scene: SyntheticScene,
    pub repeat: usize,
    pub quality: String,
    pub colors: Vec<ColorMode>,
    pub variants: Vec<Variant>,
    pub i444: bool,
    pub save_samples: bool,
}

/// What [`RunOptions`] stands for.
pub struct RunModel {
    pub input: Option<Seq<char>>,
    pub output_dir: Seq<char>,
    pub width: usize,
    pub height: usize,
    pub frames: usize,
    pub fps: u32,
    pub scene: SyntheticScene,
    pub repeat: usize,
    pub quality: Seq<char>,
    pub colors: Seq<ColorMode>,
    pub variants: Seq<Variant>,
    pub i444: bool,
    pub save_samples: bool,
}

impl View for RunOptions {
    type V = RunModel;

    open spec fn view(&self) -> RunModel {
        RunModel {
            input: optional_text(self.input),
            output_dir: self.output_dir@,
            width: self.width,
            height: self.height,
            frames: self.frames,
            fps: self.fps,
            scene: self.scene,
            repeat: self.repeat,
            quality: self.quality@,
            colors: self.colors@,
            variants: self.variants@,
            i444: self.i444,
            save_samples: self.save_samples,
        }
    }
}

/// What holds where no option is given.
pub open spec fn run_defaults(output_dir: Seq<char>) -> RunModel {
    RunModel {
        input: None,
        output_dir: output_dir,
        width: 1280,
        height: 720,
        frames: 90,
        fps: 30,
        scene: SyntheticScene::Screen,
        repeat: 1,
        quality: "1.0"@,
        colors: seq![ColorMode::Full],
        variants: Variant::listed(),
        i444: false,
        save_samples: false,
    }
}

/// The options after the option `key` with `value`.
pub open spec fn run_option(state: RunModel, key: Seq<char>, value: Seq<char>) -> Result<RunModel, Seq<char>> {
    if key == "--input"@ {
        Ok(RunModel { input: Some(value), ..state })
    } else if key == "--output-dir"@ {
        Ok(RunModel { output_dir: value, ..state })
    } else if key == "--width"@ {
        match number(key, value, usize::MAX as nat) {
            Ok(out) => Ok(RunModel { width: out as usize, ..state }),
            Err(err) => Err(err),
        }
    } else if key == "--height"@ {
        match number(key, value, usize::MAX as nat) {
            Ok(out) => Ok(RunModel { height: out as usize, ..state }),
            Err(err) => Err(err),
        }
    } else if key == "--frames"@ {
        match number(key, value, usize::MAX as nat) {
            Ok(out) => Ok(RunModel { frames: out as usize, ..state }),
            Err(err) => Err(err),
        }
    } else if key == "--fps"@ {
        match number(key, value, u32::MAX as nat) {
            Ok(out) => Ok(RunModel { fps: out as u32, ..state }),
            Err(err) => Err(err),
        }
    } else if key == "--scene"@ {
        match scene_value(value) {
            Ok(out) => Ok(RunModel { scene: out, ..state }),
            Err(err) => Err(err),
        }
    } else if key == "--repeat"@ {
        match number(key, value, usize::MAX as nat) {
            Ok(out) => Ok(RunModel { repeat: out as usize, ..state }),
            Err(err) => Err(err),
        }
    } else if key == "--quality"@ {
        match fraction_value(key, value) {
            Ok(out) => Ok(RunModel { quality: out, ..state }),
            Err(err) => Err(err),
        }
    } else if key == "--colors"@ {
        match colors_named(split_on(value, ',')) {
            Ok(out) => Ok(RunModel { colors: out, ..state }),
            Err(err) => Err(err),
        }
    } else if key == "--variants"@ {
        match variant_list(value) {
            Ok(out) => Ok(RunModel { variants: out, ..state }),
            Err(err) => Err(err),
        }
    } else {
        Err("unknown run option: "@ + key)
    }
}

/// The options after the arguments from `at` on.
pub open spec fn run_options(state: RunModel, args: Seq<Seq<char>>, at: int) -> Result<RunModel, Seq<char>>
    decreases args.len() - at,
{
    if at >= args.len() {
        Ok(state)
    } else if args[at] == "--i444"@ {
        run_options(RunModel { i444: true, ..state }, args, at + 1)
    } else if args[at] == "--save-samples"@ {
        run_options(RunModel { save_samples: true, ..state }, args, at + 1)
    } else if args[at] == "-h"@ || args[at] == "--help"@ {
        Err(HELP@)
    } else {
        match option_at(args, at) {
            Err(err) => Err(err),
            Ok((key, value, next)) => match run_option(state, key, value) {
                Err(err) => Err(err),
                Ok(then) => run_options(then, args, at + if next { 2int } else { 1int }),
            },
        }
    }
}

/// Whether the sizes, the timing and the quality of the options can be used.
pub open spec fn run_usable(state: RunModel) -> bool {
    &&& state.width != 0 && state.height != 0
    &&& state.frames != 0 && state.fps != 0 && state.repeat != 0
    &&& is_positive(state.quality)
}

/// What the arguments ask for.
pub open spec fn run_line(output_dir: Seq<char>, args: Seq<Seq<char>>) -> Result<RunModel, Seq<char>> {
    match run_options(run_defaults(output_dir), args, 0) {
        Err(err) => Err(err),
        Ok(state) => if run_usable(state) {
            Ok(state)
        } else {
            Err("run dimensions, timing, repeat, and quality must be positive"@)
        },
    }
}

/// What holds where no option is given.
pub fn default_run_options(output_dir: &str) -> (options: RunOptions)
    ensures
        options@ == run_defaults(output_dir@),
{
    let mut colors: Vec<ColorMode> = Vec::new();
    colors.push(ColorMode::Full);
    assert(colors@ =~= seq![ColorMode::Full]);
    RunOptions {
        input: None,
        output_dir: output_dir.to_owned(),
        width: 1280,
        height: 720,
        frames: 90,
        fps: 30,
        scene: SyntheticScene::Screen,
        repeat: 1,
        quality: "1.0".to_owned(),
        colors,
        variants: Variant::all(),
        i444: false,
        save_samples: false,
    }
}

pub fn parse_run_options(arguments: &[String], output_dir: &str) -> (res: Result<RunOptions, String>)
    ensures
        match res {
            Ok(options) => run_line(output_dir@, views(arguments@)) == Ok::<RunModel, Seq<char>>(options@),
            Err(err) => run_line(output_dir@, views(arguments@)) == Err::<RunModel, Seq<char>>(err@),
        },
{
    let mut options = default_run_options(output_dir);
    let mut index: usize = 0;
    while index < arguments.len()
        invariant
            index <= arguments.len(),
            run_options(run_defaults(output_dir@), views(arguments@), 0) == run_options(
                options@,
                views(arguments@),
                index as int,
            ),
        decreases arguments.len() - index,
    {
        assert(views(arguments@)[index as int] == arguments@[index as int]@);
        if text_eq(arguments[index].as_str(), "--i444") {
            options.i444 = true;
            index += 1;
        } else if text_eq(arguments[index].as_str(), "--save-samples") {
            options.save_samples = true;
            index += 1;
        } else if text_eq(arguments[index].as_str(), "-h") || text_eq(arguments[index].as_str(), "--help") {
            return Err(HELP.to_owned());
        } else {
            let (key_text, value_text, next) = option_value(arguments, index)?;
            let key = key_text.as_str();
            let value = value_text.as_str();
            if text_eq(key, "--input") {
                options.input = Some(value.to_owned());
            } else if text_eq(key, "--output-dir") {
                options.output_dir = value.to_owned();
            } else if text_eq(key, "--width") {
                options.width = parse_usize(key, value)?;
            } else if text_eq(key, "--height") {
                options.height = parse_usize(key, value)?;
            } else if text_eq(key, "--frames") {
                options.frames = parse_usize(key, value)?;
            } else if text_eq(key, "--fps") {
                options.fps = parse_u32(key, value)?;
            } else if text_eq(key, "--scene") {
                options.scene = parse_scene(value)?;
            } else if text_eq(key, "--repeat") {
                options.repeat = parse_usize(key, value)?;
            } else if text_eq(key, "--quality") {
                options.quality = parse_fraction(key, value)?;
            } else if text_eq(key, "--colors") {
                options.colors = parse_colors(value)?;
            } else if text_eq(key, "--variants") {
                options.variants = parse_variants(value)?;
            } else {
                return Err(message("unknown run option: ", key));
            }
            if next {
                index += 2;
            } else {
                index += 1;
            }
        }
    }
    if options.width == 0 || options.height == 0 || options.frames == 0 || options.fps == 0
        || options.repeat == 0 || !positive_text(options.quality.as_str()) {
        return Err("run dimensions, timing, repeat, and quality must be positive".to_owned());
    }
    Ok(options)
}

// ---------------------------------------------------------------------------
// Hardware
// ---------------------------------------------------------------------------

/// What a hardware run is asked to do. The qualities are texts of numbers.
#[derive(Debug)]
pub struct HardwareOptions {
    pub input: Option<String>,
    pub output_dir: String,
    pub width: usize,
    pub height: usize,
    pub frames: usize,
    pub fps: u32,
    pub scene: SyntheticScene,
    pub repeat: usize,
    pub qualities: Vec<String>,
    pub encoders: Vec<String>,
    pub profiles: Vec<HwEncoderProfile>,
    pub save_samples: bool,
}

/// What [`HardwareOptions`] stands for.
pub struct HardwareModel {
    pub input: Option<Seq<char>>,
    pub output_dir: Seq<char>,
    pub width: usize,
    pub height: usize,
    pub frames: usize,
    pub fps: u32,
    pub scene: SyntheticScene,
    pub repeat: usize,
    pub qualities: Seq<Seq<char>>,
    pub encoders: Seq<Seq<char>>,
    pub profiles: Seq<HwEncoderProfile>,
    pub save_samples: bool,
}

impl View for HardwareOptions {
    type V = HardwareModel;

    open spec fn view(&self) -> HardwareModel {
        HardwareModel {
            input: optional_text(self.input),
            output_dir: self.output_dir@,
            width: self.width,
            height: self.height,
            frames: self.frames,
            fps: self.fps,
            scene: self.scene,
            repeat: self.repeat,
            qualities: views(self.qualities@),
            encoders: views(self.encoders@),
            profiles: self.profiles@,
            save_samples: self.save_samples,
        }
    }
}

/// What holds where no option is given.
pub open spec fn hardware_defaults(output_dir: Seq<char>) -> HardwareModel {
    HardwareModel {
        input: None,
        output_dir: output_dir,
        width: 1280,
        height: 720,
        frames: 90,
        fps: 30,
        scene: SyntheticScene::Screen,
        repeat: 1,
        qualities: seq!["0.25"@, "0.5"@, "0.67"@, "1.0"@],
        encoders: seq!["h264_nvenc"@, "hevc_nvenc"@],
        profiles: seq![HwEncoderProfile::Default, HwEncoderProfile::HighQuality],
        save_samples: false,
    }
}

/// The options after the option `key` with `value`.
pub open spec fn hardware_option(state: HardwareModel, key: Seq<char>, value: Seq<char>) -> Result<
    HardwareModel,
    Seq<char>,
> {
    if key == "--input"@ {
        Ok(HardwareModel { input: Some(value), ..state })
    } else if key == "--output-dir"@ {
        Ok(HardwareModel { output_dir: value, ..state })
    } else if key == "--width"@ {
        match number(key, value, usize::MAX as nat) {
            Ok(out) => Ok(HardwareModel { width: out as usize, ..state }),
            Err(err) => Err(err),
        }
    } else if key == "--height"@ {
        match number(key, value, usize::MAX as nat) {
            Ok(out) => Ok(HardwareModel { height: out as usize, ..state }),
            Err(err) => Err(err),
        }
    } else if key == "--frames"@ {
        match number(key, value, usize::MAX as nat) {
            Ok(out) => Ok(HardwareModel { frames: out as usize, ..state }),
            Err(err) => Err(err),
        }
    } else if key == "--fps"@ {
        match number(key, value, u32::MAX as nat) {
            Ok(out) => Ok(HardwareModel { fps: out as u32, ..state }),
            Err(err) => Err(err),
        }
    } else if key == "--scene"@ {
        match scene_value(value) {
            Ok(out) => Ok(HardwareModel { scene: out, ..state }),
            Err(err) => Err(err),
        }
    } else if key == "--repeat"@ {
        match number(key, value, usize::MAX as nat) {
            Ok(out) => Ok(HardwareModel { repeat: out as usize, ..state }),
            Err(err) => Err(err),
        }
    } else if key == "--qualities"@ {
        match fractions_of(key, split_on(value, ',')) {
            Ok(out) => Ok(HardwareModel { qualities: out, ..state }),
            Err(err) => Err(err),
        }
    } else if key == "--encoders"@ {
        match string_list(key, value) {
            Ok(out) => Ok(HardwareModel { encoders: out, ..state }),
            Err(err) => Err(err),
        }
    } else if key == "--profiles"@ {
        match profile_list(value) {
            Ok(out) => Ok(HardwareModel { profiles: out, ..state }),
            Err(err) => Err(err),
        }
    } else {
        Err("unknown hardware run option: "@ + key)
    }
}

/// The options after the arguments from `at` on.
pub open spec fn hardware_options(state: HardwareModel, args: Seq<Seq<char>>, at: int) -> Result<
    HardwareModel,
    Seq<char>,
>
    decreases args.len() - at,
{
    if at >= args.len() {
        Ok(state)
    } else if args[at] == "--save-samples"@ {
        hardware_options(HardwareModel { save_samples: true, ..state }, args, at + 1)
    } else {
        match option_at(args, at) {
            Err(err) => Err(err),
            Ok((key, value, next)) => match hardware_option(state, key, value) {
                Err(err) => Err(err),
                Ok(then) => hardware_options(then, args, at + if next { 2int } else { 1int }),
            },
        }
    }
}

/// Whether the sizes, the timing and the lists of the options can be used.
pub open spec fn hardware_usable(state: HardwareModel) -> bool {
    &&& state.width != 0 && state.height != 0
    &&& state.frames != 0 && state.fps != 0 && state.repeat != 0
    &&& state.qualities.len() != 0 && state.encoders.len() != 0 && state.profiles.len() != 0
    &&& forall|i: int| 0 <= i < state.qualities.len() ==> is_positive(#[trigger] state.qualities[i])
}

/// What the arguments ask for.
pub open spec fn hardware_line(output_dir: Seq<char>, args: Seq<Seq<char>>) -> Result<HardwareModel, Seq<char>> {
    match hardware_options(hardware_defaults(output_dir), args, 0) {
        Err(err) => Err(err),
        Ok(state) => if hardware_usable(state) {
            Ok(state)
        } else {
            Err("hardware dimensions, timing, repeat, qualities, encoders, and profiles must be positive"@)
        },
    }
}

fn all_positive(texts: &[String]) -> (yes: bool)
    ensures
        yes == forall|i: int| 0 <= i < views(texts@).len() ==> is_positive(#[trigger] views(texts@)[i]),
{
    let mut i: usize = 0;
    while i < texts.len()
        invariant
            i <= texts.len(),
            forall|k: int| 0 <= k < i ==> is_positive(#[trigger] views(texts@)[k]),
        decreases texts.len() - i,
    {
        if !positive_text(texts[i].as_str()) {
            assert(!is_positive(views(texts@)[i as int]));
            return false;
        }
        i += 1;
    }
    true
}

/// What holds where no option is given.
pub fn default_hardware_options(output_dir: &str) -> (options: HardwareOptions)
    ensures
        options@ == hardware_defaults(output_dir@),
{
    let mut qualities: Vec<String> = Vec::new();
    qualities.push("0.25".to_owned());
    qualities.push("0.5".to_owned());
    qualities.push("0.67".to_owned());
    qualities.push("1.0".to_owned());
    assert(views(qualities@) =~= seq!["0.25"@, "0.5"@, "0.67"@, "1.0"@]);
    let mut encoders: Vec<String> = Vec::new();
    encoders.push("h264_nvenc".to_owned());
    encoders.push("hevc_nvenc".to_owned());
    assert(views(encoders@) =~= seq!["h264_nvenc"@, "hevc_nvenc"@]);
    let mut profiles: Vec<HwEncoderProfile> = Vec::new();
    profiles.push(HwEncoderProfile::Default);
    profiles.push(HwEncoderProfile::HighQuality);
    assert(profiles@ =~= seq![HwEncoderProfile::Default, HwEncoderProfile::HighQuality]);
    HardwareOptions {
        input: None,
        output_dir: output_dir.to_owned(),
        width: 1280,
        height: 720,
        frames: 90,
        fps: 30,
        scene: SyntheticScene::Screen,
        repeat: 1,
        qualities,
        encoders,
        profiles,
        save_samples: false,
    }
}

pub fn parse_hardware_options(arguments: &[String], output_dir: &str) -> (res: Result<HardwareOptions, String>)
    ensures
        match res {
            Ok(options) => hardware_line(output_dir@, views(arguments@)) == Ok::<HardwareModel, Seq<char>>(options@),
            Err(err) => hardware_line(output_dir@, views(arguments@)) == Err::<HardwareModel, Seq<char>>(err@),
        },
{
    let mut options = default_hardware_options(output_dir);
    let mut index: usize = 0;
    while index < arguments.len()
        invariant
            index <= arguments.len(),
            hardware_options(hardware_defaults(output_dir@), views(arguments@), 0) == hardware_options(
                options@,
                views(arguments@),
                index as int,
            ),
        decreases arguments.len() - index,
    {
        assert(views(arguments@)[index as int] == arguments@[index as int]@);
        if text_eq(arguments[index].as_str(), "--save-samples") {
            options.save_samples = true;
            index += 1;
        } else {
            let (key_text, value_text, next) = option_value(arguments, index)?;
            let key = key_text.as_str();
            let value = value_text.as_str();
            if text_eq(key, "--input") {
                options.input = Some(value.to_owned());
            } else if text_eq(key, "--output-dir") {
                options.output_dir = value.to_owned();
            } else if text_eq(key, "--width") {
                options.width = parse_usize(key, value)?;
            } else if text_eq(key, "--height") {
                options.height = parse_usize(key, value)?;
            } else if text_eq(key, "--frames") {
                options.frames = parse_usize(key, value)?;
            } else if text_eq(key, "--fps") {
                options.fps = parse_u32(key, value)?;
            } else if text_eq(key, "--scene") {
                options.scene = parse_scene(value)?;
            } else if text_eq(key, "--repeat") {
                options.repeat = parse_usize(key, value)?;
            } else if text_eq(key, "--qualities") {
                options.qualities = parse_float_list(key, value)?;
            } else if text_eq(key, "--encoders") {
                options.encoders = parse_string_list(key, value)?;
            } else if text_eq(key, "--profiles") {
                options.profiles = parse_hardware_profiles(value)?;
            } else {
                return Err(message("unknown hardware run option: ", key));
            }
            if next {
                index += 2;
            } else {
                index += 1;
            }
        }
    }
    if options.width == 0 || options.height == 0 || options.frames == 0 || options.fps == 0
        || options.repeat == 0 || options.qualities.len() == 0 || options.encoders.len() == 0
        || options.profiles.len() == 0 || !all_positive(options.qualities.as_slice()) {
        return Err(
            "hardware dimensions, timing, repeat, qualities, encoders, and profiles must be positive".to_owned(),
        );
    }
    Ok(options)
}

// ---------------------------------------------------------------------------
// Record
// ---------------------------------------------------------------------------

/// What a recording is asked for.
#[derive(Debug)]
pub struct RecordOptions {
    pub output: String,
    pub frames: usize,
    pub fps: u32,
    pub idle_timeout_ms: u64,
    pub display: Option<usize>,
    pub force_gdi: bool,
    pub start_delay_ms: u64,
}

/// What [`RecordOptions`] stands for.
pub struct RecordModel {
    pub output: Seq<char>,
    pub frames: usize,
    pub fps: u32,
    pub idle_timeout_ms: u64,
    pub display: Option<usize>,
    pub force_gdi: bool,
    pub start_delay_ms: u64,
}

impl View for RecordOptions {
    type V = RecordModel;

    open spec fn view(&self) -> RecordModel {
        RecordModel {
            output: self.output@,
            frames: self.frames,
            fps: self.fps,
            idle_timeout_ms: self.idle_timeout_ms,
            display: self.display,
            force_gdi: self.force_gdi,
            start_delay_ms: self.start_delay_ms,
        }
    }
}

/// What holds where no option is given.
pub open spec fn record_defaults() -> RecordModel {
    RecordModel {
        output: "av1-screen-corpus.rasc"@,
        frames: 180,
        fps: 30,
        idle_timeout_ms: 30_000,
        display: None,
        force_gdi: false,
        start_delay_ms: 0,
    }
}

/// The options after the option `key` with `value`.
pub open spec fn record_option(state: RecordModel, key: Seq<char>, value: Seq<char>) -> Result<RecordModel, Seq<char>> {
    if key == "--output"@ {
        Ok(RecordModel { output: value, ..state })
    } else if key == "--frames"@ {
        match number(key, value, usize::MAX as nat) {
            Ok(out) => Ok(RecordModel { frames: out as usize, ..state }),
            Err(err) => Err(err),
        }
    } else if key == "--fps"@ {
        match number(key, value, u32::MAX as nat) {
            Ok(out) => Ok(RecordModel { fps: out as u32, ..state }),
            Err(err) => Err(err),
        }
    } else if key == "--idle-timeout-ms"@ {
        match number(key, value, u64::MAX as nat) {
            Ok(out) => Ok(RecordModel { idle_timeout_ms: out as u64, ..state }),
            Err(err) => Err(err),
        }
    } else if key == "--display"@ {
        match number(key, value, usize::MAX as nat) {
            Ok(out) => Ok(RecordModel { display: Some(out as usize), ..state }),
            Err(err) => Err(err),
        }
    } else if key == "--capture"@ {
        match capture_value(value) {
            Ok(out) => Ok(RecordModel { force_gdi: out, ..state }),
            Err(err) => Err(err),
        }
    } else if key == "--start-delay-ms"@ {
        match number(key, value, u64::MAX as nat) {
            Ok(out) => Ok(RecordModel { start_delay_ms: out as u64, ..state }),
            Err(err) => Err(err),
        }
    } else {
        Err("unknown record option: "@ + key)
    }
}

/// The options after the arguments from `at` on.
pub open spec fn record_options(state: RecordModel, args: Seq<Seq<char>>, at: int) -> Result<RecordModel, Seq<char>>
    decreases args.len() - at,
{
    if at >= args.len() {
        Ok(state)
    } else {
        match option_at(args, at) {
            Err(err) => Err(err),
            Ok((key, value, next)) => match record_option(state, key, value) {
                Err(err) => Err(err),
                Ok(then) => record_options(then, args, at + if next { 2int } else { 1int }),
            },
        }
    }
}

/// Whether the counts of the options can be used.
pub open spec fn record_usable(state: RecordModel) -> bool {
    &&& state.frames != 0 && state.fps != 0
    &&& state.idle_timeout_ms != 0
    &&& state.display != Some(0usize)
}

/// What the arguments ask for.
pub open spec fn record_line(args: Seq<Seq<char>>) -> Result<RecordModel, Seq<char>> {
    match record_options(record_defaults(), args, 0) {
        Err(err) => Err(err),
        Ok(state) => if record_usable(state) {
            Ok(state)
        } else {
            Err("record frame count, fps, and idle timeout must be positive"@)
        },
    }
}

/// What holds where no option is given.
pub fn default_record_options() -> (options: RecordOptions)
    ensures
        options@ == record_defaults(),
{
    RecordOptions {
        output: "av1-screen-corpus.rasc".to_owned(),
        frames: 180,
        fps: 30,
        idle_timeout_ms: 30_000,
        display: None,
        force_gdi: false,
        start_delay_ms: 0,
    }
}

pub fn parse_record_options(arguments: &[String]) -> (res: Result<RecordOptions, String>)
    ensures
        match res {
            Ok(options) => record_line(views(arguments@)) == Ok::<RecordModel, Seq<char>>(options@),
            Err(err) => record_line(views(arguments@)) == Err::<RecordModel, Seq<char>>(err@),
        },
{
    let mut options = default_record_options();
    let mut index: usize = 0;
    while index < arguments.len()
        invariant
            index <= arguments.len(),
            record_options(record_defaults(), views(arguments@), 0) == record_options(
                options@,
                views(arguments@),
                index as int,
            ),
        decreases arguments.len() - index,
    {
        assert(views(arguments@)[index as int] == arguments@[index as int]@);
        let (key_text, value_text, next) = option_value(arguments, index)?;
        let key = key_text.as_str();
        let value = value_text.as_str();
        if text_eq(key, "--output") {
            options.output = value.to_owned();
        } else if text_eq(key, "--frames") {
            options.frames = parse_usize(key, value)?;
        } else if text_eq(key, "--fps") {
            options.fps = parse_u32(key, value)?;
        } else if text_eq(key, "--idle-timeout-ms") {
            options.idle_timeout_ms = parse_u64(key, value)?;
        } else if text_eq(key, "--display") {
            options.display = Some(parse_usize(key, value)?);
        } else if text_eq(key, "--capture") {
            options.force_gdi = parse_capture(value)?;
        } else if text_eq(key, "--start-delay-ms") {
            options.start_delay_ms = parse_u64(key, value)?;
        } else {
            return Err(message("unknown record option: ", key));
        }
        if next {
            index += 2;
        } else {
            index += 1;
        }
    }
    if options.frames == 0 || options.fps == 0 || options.idle_timeout_ms == 0 || options.display == Some(0usize) {
        return Err("record frame count, fps, and idle timeout must be positive".to_owned());
    }
    Ok(options)
}

// ---------------------------------------------------------------------------
// Export
// ---------------------------------------------------------------------------

/// The paths given so far.
#[derive(Debug)]
pub struct ExportDraft {
    pub input: Option<String>,
    pub output: Option<String>,
}

/// What [`ExportDraft`] stands for.
pub struct ExportModel {
    pub input: Option<Seq<char>>,
    pub output: Option<Seq<char>>,
}

impl View for ExportDraft {
    type V = ExportModel;

    open spec fn view(&self) -> ExportModel {
        ExportModel {
            input: optional_text(self.input),
            output: optional_text(self.output),
        }
    }
}

/// What an export is asked for.
#[derive(Debug)]
pub struct ExportOptions {
    pub input: String,
    pub output: String,
}

/// What holds where no option is given.
pub open spec fn export_defaults() -> ExportModel {
    ExportModel {
        input: None,
        output: None,
    }
}

/// The options after the option `key` with `value`.
pub open spec fn export_option(state: ExportModel, key: Seq<char>, value: Seq<char>) -> Result<ExportModel, Seq<char>> {
    if key == "--input"@ {
        Ok(ExportModel { input: Some(value), ..state })
    } else if key == "--output"@ {
        Ok(ExportModel { output: Some(value), ..state })
    } else {
        Err("unknown BGRA export option: "@ + key)
    }
}

/// The options after the arguments from `at` on.
pub open spec fn export_options(state: ExportModel, args: Seq<Seq<char>>, at: int) -> Result<ExportModel, Seq<char>>
    decreases args.len() - at,
{
    if at >= args.len() {
        Ok(state)
    } else {
        match option_at(args, at) {
            Err(err) => Err(err),
            Ok((key, value, next)) => match export_option(state, key, value) {
                Err(err) => Err(err),
                Ok(then) => export_options(then, args, at + if next { 2int } else { 1int }),
            },
        }
    }
}

/// What the arguments ask for; every path has to be given.
pub open spec fn export_line(args: Seq<Seq<char>>) -> Result<ExportModel, Seq<char>> {
    match export_options(export_defaults(), args, 0) {
        Err(err) => Err(err),
        Ok(state) => if state.input is None {
            Err("export-bgra requires --input"@)
        } else if state.output is None {
            Err("export-bgra requires --output"@)
        } else {
            Ok(state)
        },
    }
}

/// What holds where no option is given.
pub fn default_export_options() -> (options: ExportDraft)
    ensures
        options@ == export_defaults(),
{
    ExportDraft {
        input: None,
        output: None,
    }
}

pub fn parse_export_options(arguments: &[String]) -> (res: Result<ExportOptions, String>)
    ensures
        match res {
            Ok(options) => export_line(views(arguments@)) == Ok::<ExportModel, Seq<char>>(
                ExportModel { input: Some(options.input@), output: Some(options.output@) },
            ),
            Err(err) => export_line(views(arguments@)) == Err::<ExportModel, Seq<char>>(err@),
        },
{
    let mut options = default_export_options();
    let mut index: usize = 0;
    while index < arguments.len()
        invariant
            index <= arguments.len(),
            export_options(export_defaults(), views(arguments@), 0) == export_options(
                options@,
                views(arguments@),
                index as int,
            ),
        decreases arguments.len() - index,
    {
        assert(views(arguments@)[index as int] == arguments@[index as int]@);
        let (key_text, value_text, next) = option_value(arguments, index)?;
        let key = key_text.as_str();
        let value = value_text.as_str();
        if text_eq(key, "--input") {
            options.input = Some(value.to_owned());
        } else if text_eq(key, "--output") {
            options.output = Some(value.to_owned());
        } else {
            return Err(message("unknown BGRA export option: ", key));
        }
        if next {
            index += 2;
        } else {
            index += 1;
        }
    }
    let input = match options.input {
        Some(path) => path,
        None => {
            return Err("export-bgra requires --input".to_owned());
        },
    };
    let output = match options.output {
        Some(path) => path,
        None => {
            return Err("export-bgra requires --output".to_owned());
        },
    };
    Ok(ExportOptions { input, output })
}

// ---------------------------------------------------------------------------
// Analyze
// ---------------------------------------------------------------------------

/// The paths given so far.
#[derive(Debug)]
pub struct AnalyzeDraft {
    pub input: Option<String>,
    pub decoded: Option<String>,
    pub output: Option<String>,
}

/// What [`AnalyzeDraft`] stands for.
pub struct AnalyzeModel {
    pub input: Option<Seq<char>>,
    pub decoded: Option<Seq<char>>,
    pub output: Option<Seq<char>>,
}

impl View for AnalyzeDraft {
    type V = AnalyzeModel;

    open spec fn view(&self) -> AnalyzeModel {
        AnalyzeModel {
            input: optional_text(self.input),
            decoded: optional_text(self.decoded),
            output: optional_text(self.output),
        }
    }
}

/// What an analysis is asked for.
#[derive(Debug)]
pub struct AnalyzeOptions {
    pub input: String,
    pub decoded: String,
    pub output: String,
}

/// What holds where no option is given.
pub open spec fn analyze_defaults() -> AnalyzeModel {
    AnalyzeModel {
        input: None,
        decoded: None,
        output: None,
    }
}

/// The options after the option `key` with `value`.
pub open spec fn analyze_option(state: AnalyzeModel, key: Seq<char>, value: Seq<char>) -> Result<
    AnalyzeModel,
    Seq<char>,
> {
    if key == "--input"@ {
        Ok(AnalyzeModel { input: Some(value), ..state })
    } else if key == "--decoded"@ {
        Ok(AnalyzeModel { decoded: Some(value), ..state })
    } else if key == "--output"@ {
        Ok(AnalyzeModel { output: Some(value), ..state })
    } else {
        Err("unknown YUV420 analysis option: "@ + key)
    }
}

/// The options after the arguments from `at` on.
pub open spec fn analyze_options(state: AnalyzeModel, args: Seq<Seq<char>>, at: int) -> Result<AnalyzeModel, Seq<char>>
    decreases args.len() - at,
{
    if at >= args.len() {
        Ok(state)
    } else {
        match option_at(args, at) {
            Err(err) => Err(err),
            Ok((key, value, next)) => match analyze_option(state, key, value) {
                Err(err) => Err(err),
                Ok(then) => analyze_options(then, args, at + if next { 2int } else { 1int }),
            },
        }
    }
}

/// What the arguments ask for; every path has to be given.
pub open spec fn analyze_line(args: Seq<Seq<char>>) -> Result<AnalyzeModel, Seq<char>> {
    match analyze_options(analyze_defaults(), args, 0) {
        Err(err) => Err(err),
        Ok(state) => if state.input is None {
            Err("analyze-yuv420 requires --input"@)
        } else if state.decoded is None {
            Err("analyze-yuv420 requires --decoded"@)
        } else if state.output is None {
            Err("analyze-yuv420 requires --output"@)
        } else {
            Ok(state)
        },
    }
}

/// What holds where no option is given.
pub fn default_analyze_options() -> (options: AnalyzeDraft)
    ensures
        options@ == analyze_defaults(),
{
    AnalyzeDraft {
        input: None,
        decoded: None,
        output: None,
    }
}

pub fn parse_analyze_options(arguments: &[String]) -> (res: Result<AnalyzeOptions, String>)
    ensures
        match res {
            Ok(options) => analyze_line(views(arguments@)) == Ok::<AnalyzeModel, Seq<char>>(
                AnalyzeModel {
                    input: Some(options.input@),
                    decoded: Some(options.decoded@),
                    output: Some(options.output@),
                },
            ),
            Err(err) => analyze_line(views(arguments@)) == Err::<AnalyzeModel, Seq<char>>(err@),
        },
{
    let mut options = default_analyze_options();
    let mut index: usize = 0;
    while index < arguments.len()
        invariant
            index <= arguments.len(),
            analyze_options(analyze_defaults(), views(arguments@), 0) == analyze_options(
                options@,
                views(arguments@),
                index as int,
            ),
        decreases arguments.len() - index,
    {
        assert(views(arguments@)[index as int] == arguments@[index as int]@);
        let (key_text, value_text, next) = option_value(arguments, index)?;
        let key = key_text.as_str();
        let value = value_text.as_str();
        if text_eq(key, "--input") {
            options.input = Some(value.to_owned());
        } else if text_eq(key, "--decoded") {
            options.decoded = Some(value.to_owned());
        } else if text_eq(key, "--output") {
            options.output = Some(value.to_owned());
        } else {
            return Err(message("unknown YUV420 analysis option: ", key));
        }
        if next {
            index += 2;
        } else {
            index += 1;
        }
    }
    let input = match options.input {
        Some(path) => path,
        None => {
            return Err("analyze-yuv420 requires --input".to_owned());
        },
    };
    let decoded = match options.decoded {
        Some(path) => path,
        None => {
            return Err("analyze-yuv420 requires --decoded".to_owned());
        },
    };
    let output = match options.output {
        Some(path) => path,
        None => {
            return Err("analyze-yuv420 requires --output".to_owned());
        },
    };
    Ok(AnalyzeOptions { input, decoded, output })
}

// ---------------------------------------------------------------------------
// Commands
// ---------------------------------------------------------------------------

/// What the benchmark is asked to do.
#[derive(Debug)]
pub enum BenchCommand {
    Run(RunOptions),
    RunHardware(HardwareOptions),
    Record(RecordOptions),
    ExportBgra(ExportOptions),
    AnalyzeYuv420(AnalyzeOptions),
    ListDisplays,
    Help,
}

/// What a [`BenchCommand`] stands for.
pub enum BenchModel {
    Run(RunModel),
    RunHardware(HardwareModel),
    Record(RecordModel),
    ExportBgra(ExportModel),
    AnalyzeYuv420(AnalyzeModel),
    ListDisplays,
    Help,
}

impl View for BenchCommand {
    type V = BenchModel;

    open spec fn view(&self) -> BenchModel {
        match self {
            BenchCommand::Run(options) => BenchModel::Run(options@),
            BenchCommand::RunHardware(options) => BenchModel::RunHardware(options@),
            BenchCommand::Record(options) => BenchModel::Record(options@),
            BenchCommand::ExportBgra(options) => BenchModel::ExportBgra(
                ExportModel { input: Some(options.input@), output: Some(options.output@) },
            ),
            BenchCommand::AnalyzeYuv420(options) => BenchModel::AnalyzeYuv420(
                AnalyzeModel {
                    input: Some(options.input@),
                    decoded: Some(options.decoded@),
                    output: Some(options.output@),
                },
            ),
            BenchCommand::ListDisplays => BenchModel::ListDisplays,
            BenchCommand::Help => BenchModel::Help,
        }
    }
}

/// What the arguments behind the program's name ask for; `hardware` says whether
/// hardware runs exist on this system.
pub open spec fn bench_line(
    args: Seq<Seq<char>>,
    hardware: bool,
    run_dir: Seq<char>,
    hardware_dir: Seq<char>,
) -> Result<BenchModel, Seq<char>> {
    if args.len() == 0 {
        Ok(BenchModel::Run(run_defaults(run_dir)))
    } else if args[0] == "-h"@ || args[0] == "--help"@ || args[0] == "help"@ {
        Ok(BenchModel::Help)
    } else if args[0] == "run"@ {
        match run_line(run_dir, args.skip(1)) {
            Ok(options) => Ok(BenchModel::Run(options)),
            Err(err) => Err(err),
        }
    } else if args[0] == "run-hw"@ {
        if hardware {
            match hardware_line(hardware_dir, args.skip(1)) {
                Ok(options) => Ok(BenchModel::RunHardware(options)),
                Err(err) => Err(err),
            }
        } else {
            Err("run-hw is available only on Windows"@)
        }
    } else if args[0] == "record"@ {
        match record_line(args.skip(1)) {
            Ok(options) => Ok(BenchModel::Record(options)),
            Err(err) => Err(err),
        }
    } else if args[0] == "export-bgra"@ {
        match export_line(args.skip(1)) {
            Ok(options) => Ok(BenchModel::ExportBgra(options)),
            Err(err) => Err(err),
        }
    } else if args[0] == "analyze-yuv420"@ {
        match analyze_line(args.skip(1)) {
            Ok(options) => Ok(BenchModel::AnalyzeYuv420(options)),
            Err(err) => Err(err),
        }
    } else if args[0] == "list-displays"@ && args.len() == 1 {
        Ok(BenchModel::ListDisplays)
    } else {
        Err("unknown command: "@ + args[0])
    }
}

/// Parses the arguments behind the program's name.
pub fn parse_command(
    arguments: &[String],
    hardware: bool,
    run_dir: &str,
    hardware_dir: &str,
) -> (res: Result<BenchCommand, String>)
    ensures
        match res {
            Ok(command) => bench_line(views(arguments@), hardware, run_dir@, hardware_dir@) == Ok::<
                BenchModel,
                Seq<char>,
            >(command@),
            Err(err) => bench_line(views(arguments@), hardware, run_dir@, hardware_dir@) == Err::<
                BenchModel,
                Seq<char>,
            >(err@),
        },
{
    if arguments.len() == 0 {
        return Ok(BenchCommand::Run(default_run_options(run_dir)));
    }
    let name = arguments[0].as_str();
    assert(views(arguments@)[0] == name@);
    let rest = vstd::slice::slice_subrange(arguments, 1, arguments.len());
    assert(views(rest@) =~= views(arguments@).skip(1));
    if text_eq(name, "-h") || text_eq(name, "--help") || text_eq(name, "help") {
        Ok(BenchCommand::Help)
    } else if text_eq(name, "run") {
        Ok(BenchCommand::Run(parse_run_options(rest, run_dir)?))
    } else if text_eq(name, "run-hw") {
        if hardware {
            Ok(BenchCommand::RunHardware(parse_hardware_options(rest, hardware_dir)?))
        } else {
            Err("run-hw is available only on Windows".to_owned())
        }
    } else if text_eq(name, "record") {
        Ok(BenchCommand::Record(parse_record_options(rest)?))
    } else if text_eq(name, "export-bgra") {
        Ok(BenchCommand::ExportBgra(parse_export_options(rest)?))
    } else if text_eq(name, "analyze-yuv420") {
        Ok(BenchCommand::AnalyzeYuv420(parse_analyze_options(rest)?))
    } else if text_eq(name, "list-displays") && arguments.len() == 1 {
        Ok(BenchCommand::ListDisplays)
    } else {
        Err(message("unknown command: ", name))
    }
}

/// The directory name of a software run.
pub fn run_dir_name(unix_ms: u128) -> (name: String)
    ensures
        name@ == "av1-screen-"@ + decimal(unix_ms as nat),
{
    let mut name = "av1-screen-".to_owned();
    push_decimal(&mut name, unix_ms);
    name
}

/// The directory name of a hardware run.
pub fn hardware_dir_name(unix_ms: u128) -> (name: String)
    ensures
        name@ == "hardware-screen-"@ + decimal(unix_ms as nat),
{
    let mut name = "hardware-screen-".to_owned();
    push_decimal(&mut name, unix_ms);
    name
}

// ---------------------------------------------------------------------------
// Hardware encoders
// ---------------------------------------------------------------------------

/// Whether an encoder's name says H.264.
pub open spec fn is_h264(name: Seq<char>) -> bool {
    holds_text(name, "h264"@)
}

/// Whether an encoder's name says H.265.
pub open spec fn is_h265(name: Seq<char>) -> bool {
    holds_text(name, "hevc"@) || holds_text(name, "h265"@)
}

/// Whether the benchmark can run an encoder.
pub fn validate_encoder(name: &str) -> (res: Result<(), String>)
    ensures
        match res {
            Ok(()) => is_h264(name@) || is_h265(name@),
            Err(err) => {
                &&& !is_h264(name@) && !is_h265(name@)
                &&& err@ == "unsupported hardware benchmark encoder: "@ + name@
            },
        },
{
    if contains_text(name, "h264") || contains_text(name, "hevc") || contains_text(name, "h265") {
        Ok(())
    } else {
        Err(message("unsupported hardware benchmark encoder: ", name))
    }
}

pub fn decoder_name(encoder_name: &str) -> (name: &'static str)
    ensures
        name@ == if is_h264(encoder_name@) {
            "h264"@
        } else {
            "hevc"@
        },
{
    if contains_text(encoder_name, "h264") {
        "h264"
    } else {
        "hevc"
    }
}

pub fn codec_label(encoder_name: &str) -> (label: &'static str)
    ensures
        label@ == if is_h264(encoder_name@) {
            "H.264"@
        } else {
            "H.265"@
        },
{
    if contains_text(encoder_name, "h264") {
        "H.264"
    } else {
        "H.265"
    }
}

/// The field of a video message that the packets of an encoder go into.
#[derive(Clone, Copy, Debug, PartialEq, Eq, Structural)]
pub enum VideoField {
    H264s,
    H265s,
}

/// Where the packets of an encoder go.
pub fn video_field(encoder_name: &str) -> (res: Result<VideoField, String>)
    ensures
        match res {
            Ok(field) => if is_h264(encoder_name@) {
                field == VideoField::H264s
            } else {
                is_h265(encoder_name@) && field == VideoField::H265s
            },
            Err(err) => {
                &&& !is_h264(encoder_name@) && !is_h265(encoder_name@)
                &&& err@ == "hardware benchmark supports H.264 and H.265 encoders"@
            },
        },
{
    if contains_text(encoder_name, "h264") {
        Ok(VideoField::H264s)
    } else if contains_text(encoder_name, "hevc") || contains_text(encoder_name, "h265") {
        Ok(VideoField::H265s)
    } else {
        Err("hardware benchmark supports H.264 and H.265 encoders".to_owned())
    }
}

/// The name of the file for the source frame of a colour mode.
pub fn source_sample_name(color: ColorMode) -> (name: String)
    ensures
        name@ == "source-"@ + color.name() + ".bmp"@,
{
    let mut name = "source-".to_owned();
    name.append(color.label());
    name.append(".bmp");
    name
}

/// The name of the file for the decoded frame of a configuration.
pub fn decoded_sample_name(variant: Variant, color: ColorMode) -> (name: String)
    ensures
        name@ == "decoded-"@ + variant.name() + "-"@ + color.name() + ".bmp"@,
{
    let mut name = "decoded-".to_owned();
    name.append(variant.label());
    name.append("-");
    name.append(color.label());
    name.append(".bmp");
    name
}

} // verus!
