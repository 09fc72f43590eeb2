//! Fixed-width integers as bytes, most and least significant byte first.
use vstd::prelude::*;

verus! {

/// The number of values of `width` bytes.
pub open spec fn radix(width: nat) -> nat
    decreases width,
{
    if width == 0 {
        1
    } else {
        256 * radix((width - 1) as nat)
    }
}

/// The low `width` bytes of `value`, most significant first.
pub open spec fn be_bytes(value: nat, width: nat) -> Seq<u8>
    decreases width,
{
    if width == 0 {
        seq![]
    } else {
        be_bytes(value / 256, (width - 1) as nat).push((value % 256) as u8)
    }
}

/// The number that bytes write, most significant first.
pub open spec fn be_value(bytes: Seq<u8>) -> nat
    decreases bytes.len(),
{
    if bytes.len() == 0 {
        0
    } else {
        be_value(bytes.drop_last()) * 256 + bytes.last() as nat
    }
}

/// The low `width` bytes of `value`, least significant first.
pub open spec fn le_bytes(value: nat, width: nat) -> Seq<u8>
    decreases width,
{
    if width == 0 {
        seq![]
    } else {
        seq![(value % 256) as u8] + le_bytes(value / 256, (width - 1) as nat)
    }
}

/// The number that bytes write, least significant first.
pub open spec fn le_value(bytes: Seq<u8>) -> nat
    decreases bytes.len(),
{
    if bytes.len() == 0 {
        0
    } else {
        bytes[0] as nat + 256 * le_value(bytes.skip(1))
    }
}

pub broadcast proof fn lemma_be_len(value: nat, width: nat)
    ensures
        #[trigger] be_bytes(value, width).len() == width,
    decreases width,
{
    if width > 0 {
        lemma_be_len(value / 256, (width - 1) as nat);
    }
}

pub broadcast proof fn lemma_le_len(value: nat, width: nat)
    ensures
        #[trigger] le_bytes(value, width).len() == width,
    decreases width,
{
    if width > 0 {
        lemma_le_len(value / 256, (width - 1) as nat);
    }
}

/// A value that fits in `width` bytes is read back from the bytes written for it.
pub proof fn law_be_value_of_bytes(value: nat, width: nat)
    requires
        value < radix(width),
    ensures
        be_value(be_bytes(value, width)) == value,
    decreases width,
{
    if width > 0 {
        law_be_value_of_bytes(value / 256, (width - 1) as nat);
        assert(be_bytes(value, width).drop_last() =~= be_bytes(value / 256, (width - 1) as nat));
    }
}

/// The bytes written for the value of some bytes are those bytes.
pub proof fn law_be_bytes_of_value(bytes: Seq<u8>)
    ensures
        be_bytes(be_value(bytes), bytes.len()) == bytes,
        be_value(bytes) < radix(bytes.len()),
    decreases bytes.len(),
{
    if bytes.len() > 0 {
        law_be_bytes_of_value(bytes.drop_last());
        let value = be_value(bytes);
        assert(value / 256 == be_value(bytes.drop_last()));
        assert(value % 256 == bytes.last() as nat);
        assert(be_bytes(value, bytes.len()) =~= bytes);
    }
}

/// A value that fits in `width` bytes is read back from the bytes written for it,
/// least significant first.
pub proof fn law_le_value_of_bytes(value: nat, width: nat)
    requires
        value < radix(width),
    ensures
        le_value(le_bytes(value, width)) == value,
    decreases width,
{
    if width > 0 {
        law_le_value_of_bytes(value / 256, (width - 1) as nat);
        assert(le_bytes(value, width).skip(1) =~= le_bytes(value / 256, (width - 1) as nat));
    }
}

pub proof fn lemma_radix()
    ensures
        radix(1) == 0x100,
        radix(2) == 0x1_0000,
        radix(4) == 0x1_0000_0000,
        radix(8) == 0x1_0000_0000_0000_0000,
{
    reveal_with_fuel(radix, 9);
}

pub proof fn lemma_be2(value: nat)
    ensures
        be_bytes(value, 2) == seq![(value / 0x100 % 256) as u8, (value % 256) as u8],
{
    reveal_with_fuel(be_bytes, 3);
    assert(be_bytes(value, 2) =~= seq![(value / 0x100 % 256) as u8, (value % 256) as u8]);
}

pub proof fn lemma_be4(value: nat)
    ensures
        be_bytes(value, 4) == seq![
            (value / 0x100_0000 % 256) as u8,
            (value / 0x1_0000 % 256) as u8,
            (value / 0x100 % 256) as u8,
            (value % 256) as u8,
        ],
{
    reveal_with_fuel(be_bytes, 5);
    assert(value / 0x100 / 0x100 == value / 0x1_0000);
    assert(value / 0x1_0000 / 0x100 == value / 0x100_0000);
    assert(be_bytes(value, 4) =~= seq![
        (value / 0x100_0000 % 256) as u8,
        (value / 0x1_0000 % 256) as u8,
        (value / 0x100 % 256) as u8,
        (value % 256) as u8,
    ]);
}

/// The low four bytes of a value depend on its remainder alone.
proof fn lemma_low_bytes(value: nat)
    ensures
        value % 0x1_0000_0000 % 256 == value % 256,
        value % 0x1_0000_0000 / 0x100 % 256 == value / 0x100 % 256,
        value % 0x1_0000_0000 / 0x1_0000 % 256 == value / 0x1_0000 % 256,
        value % 0x1_0000_0000 / 0x100_0000 % 256 == value / 0x100_0000 % 256,
{
    let low = value % 0x1_0000_0000;
    let high = value / 0x1_0000_0000;
    lemma_low_byte(value, high, low, 0x100_0000, 1);
    lemma_low_byte(value, high, low, 0x1_0000, 0x100);
    lemma_low_byte(value, high, low, 0x100, 0x1_0000);
    lemma_low_byte(value, high, low, 1, 0x100_0000);
}

proof fn lemma_low_byte(value: nat, high: nat, low: nat, times: nat, unit: nat)
    requires
        value == high * 0x1_0000_0000 + low,
        unit > 0,
        unit * times == 0x100_0000,
    ensures
        low / unit % 256 == value / unit % 256,
{
    let quotient = low / unit;
    let rest = low % unit;
    vstd::arithmetic::div_mod::lemma_fundamental_div_mod(low as int, unit as int);
    assert(value == unit * (high * times * 256 + quotient) + rest) by (nonlinear_arith)
        requires
            value == high * 0x1_0000_0000 + low,
            unit * times == 0x100_0000,
            low == unit * quotient + rest,
    ;
    vstd::arithmetic::div_mod::lemma_fundamental_div_mod_converse(
        value as int,
        unit as int,
        (high * times * 256 + quotient) as int,
        rest as int,
    );
    vstd::arithmetic::div_mod::lemma_mod_multiples_vanish((high * times) as int, quotient as int, 256);
    assert(256 * (high * times) + quotient == high * times * 256 + quotient);
}

proof fn lemma_high_part(value: nat)
    ensures
        value / 256 / 256 / 256 / 256 == value / 0x1_0000_0000,
{
    assert(value / 256 / 256 == value / 0x1_0000);
    assert(value / 0x1_0000 / 256 == value / 0x100_0000);
    assert(value / 0x100_0000 / 256 == value / 0x1_0000_0000);
}

/// Eight bytes are the four of the upper half and the four of the lower half.
pub proof fn lemma_be8(value: nat)
    ensures
        be_bytes(value, 8) == be_bytes(value / 0x1_0000_0000, 4) + be_bytes(value % 0x1_0000_0000, 4),
{
    let low = value % 0x1_0000_0000;
    let high = value / 0x1_0000_0000;
    assert(be_bytes(low, 4) == be_bytes(value, 4)) by {
        lemma_be4(low);
        lemma_be4(value);
        lemma_low_bytes(value);
    }
    assert(be_bytes(value, 8) =~= be_bytes(high, 4) + be_bytes(value, 4)) by {
        lemma_high_part(value);
        lemma_be_unfold4(value, 4);
        lemma_be_unfold4(value, 0);
    }
}

proof fn lemma_be_unfold4(value: nat, width: nat)
    ensures
        be_bytes(value, width + 4) == be_bytes(value / 256 / 256 / 256 / 256, width).push(
            (value / 256 / 256 / 256 % 256) as u8,
        ).push((value / 256 / 256 % 256) as u8).push((value / 256 % 256) as u8).push((value % 256) as u8),
{
    assert(be_bytes(value, width + 4) == be_bytes(value / 256, width + 3).push((value % 256) as u8));
    assert(be_bytes(value / 256, width + 3) == be_bytes(value / 256 / 256, width + 2).push((value / 256 % 256) as u8));
    assert(be_bytes(value / 256 / 256, width + 2) == be_bytes(value / 256 / 256 / 256, width + 1).push(
        (value / 256 / 256 % 256) as u8,
    ));
}

pub proof fn lemma_be_value2(bytes: Seq<u8>)
    requires
        bytes.len() == 2,
    ensures
        be_value(bytes) == bytes[0] * 0x100 + bytes[1],
{
    reveal_with_fuel(be_value, 3);
}

pub proof fn lemma_be_value4(bytes: Seq<u8>)
    requires
        bytes.len() == 4,
    ensures
        be_value(bytes) == bytes[0] * 0x100_0000 + bytes[1] * 0x1_0000 + bytes[2] * 0x100 + bytes[3],
{
    reveal_with_fuel(be_value, 5);
}

pub proof fn lemma_be_value8(bytes: Seq<u8>)
    requires
        bytes.len() == 8,
    ensures
        be_value(bytes) == be_value(bytes.take(4)) * 0x1_0000_0000 + be_value(bytes.skip(4)),
{
    lemma_be_value4(bytes.skip(4));
    reveal_with_fuel(be_value, 5);
    let head = bytes.take(4);
    assert(bytes.drop_last().drop_last().drop_last().drop_last() =~= head);
    assert(bytes.drop_last().last() == bytes[6]);
    assert(bytes.drop_last().drop_last().last() == bytes[5]);
    assert(bytes.drop_last().drop_last().drop_last().last() == bytes[4]);
}

/// The byte at `place` of the big-endian `u32`.
pub fn be32_byte(value: u32, place: usize) -> (byte: u8)
    requires
        place < 4,
    ensures
        byte == be_bytes(value as nat, 4)[place as int],
{
    proof {
        lemma_be4(value as nat);
    }
    if place == 0 {
        (value / 0x100_0000 % 256) as u8
    } else if place == 1 {
        (value / 0x1_0000 % 256) as u8
    } else if place == 2 {
        (value / 0x100 % 256) as u8
    } else {
        (value % 256) as u8
    }
}

/// Appends a `u16`, most significant byte first.
pub fn push_be16(out: &mut Vec<u8>, value: u16)
    ensures
        final(out)@ == old(out)@ + be_bytes(value as nat, 2),
{
    proof {
        lemma_be2(value as nat);
    }
    out.push((value / 0x100) as u8);
    out.push((value % 256) as u8);
    assert(out@ =~= old(out)@ + be_bytes(value as nat, 2));
}

/// Appends a `u32`, most significant byte first.
pub fn push_be32(out: &mut Vec<u8>, value: u32)
    ensures
        final(out)@ == old(out)@ + be_bytes(value as nat, 4),
{
    broadcast use lemma_be_len;

    out.push(be32_byte(value, 0));
    out.push(be32_byte(value, 1));
    out.push(be32_byte(value, 2));
    out.push(be32_byte(value, 3));
    assert(out@ =~= old(out)@ + be_bytes(value as nat, 4));
}

/// Appends a `u64`, most significant byte first.
pub fn push_be64(out: &mut Vec<u8>, value: u64)
    ensures
        final(out)@ == old(out)@ + be_bytes(value as nat, 8),
{
    proof {
        lemma_be8(value as nat);
    }
    push_be32(out, (value / 0x1_0000_0000) as u32);
    push_be32(out, (value % 0x1_0000_0000) as u32);
    assert(out@ =~= old(out)@ + be_bytes(value as nat, 8));
}

/// Appends a `u16`, least significant byte first.
pub fn push_le16(out: &mut Vec<u8>, value: u16)
    ensures
        final(out)@ == old(out)@ + le_bytes(value as nat, 2),
{
    reveal_with_fuel(le_bytes, 3);
    out.push((value % 256) as u8);
    out.push((value / 0x100) as u8);
    assert(out@ =~= old(out)@ + le_bytes(value as nat, 2));
}

pub proof fn lemma_le4(value: nat)
    ensures
        le_bytes(value, 4) == seq![
            (value % 256) as u8,
            (value / 0x100 % 256) as u8,
            (value / 0x1_0000 % 256) as u8,
            (value / 0x100_0000 % 256) as u8,
        ],
{
    reveal_with_fuel(le_bytes, 5);
    assert(value / 0x100 / 0x100 == value / 0x1_0000);
    assert(value / 0x1_0000 / 0x100 == value / 0x100_0000);
    assert(le_bytes(value, 4) =~= seq![
        (value % 256) as u8,
        (value / 0x100 % 256) as u8,
        (value / 0x1_0000 % 256) as u8,
        (value / 0x100_0000 % 256) as u8,
    ]);
}

pub proof fn lemma_le8(value: nat)
    ensures
        le_bytes(value, 8) == le_bytes(value % 0x1_0000_0000, 4) + le_bytes(value / 0x1_0000_0000, 4),
{
    let low = value % 0x1_0000_0000;
    let high = value / 0x1_0000_0000;
    assert(le_bytes(low, 4) == le_bytes(value, 4)) by {
        lemma_le4(low);
        lemma_le4(value);
        lemma_low_bytes(value);
    }
    assert(le_bytes(value, 8) =~= le_bytes(value, 4) + le_bytes(high, 4)) by {
        lemma_high_part(value);
        lemma_le_unfold4(value, 4);
        lemma_le_unfold4(value, 0);
    }
}

proof fn lemma_le_unfold4(value: nat, width: nat)
    ensures
        le_bytes(value, width + 4) == seq![
            (value % 256) as u8,
            (value / 256 % 256) as u8,
            (value / 256 / 256 % 256) as u8,
            (value / 256 / 256 / 256 % 256) as u8,
        ] + le_bytes(value / 256 / 256 / 256 / 256, width),
{
    let v1 = value / 256;
    let v2 = v1 / 256;
    let v3 = v2 / 256;
    assert(le_bytes(value, width + 4) == seq![(value % 256) as u8] + le_bytes(v1, width + 3));
    assert(le_bytes(v1, width + 3) == seq![(v1 % 256) as u8] + le_bytes(v2, width + 2));
    assert(le_bytes(v2, width + 2) == seq![(v2 % 256) as u8] + le_bytes(v3, width + 1));
    assert(le_bytes(v3, width + 1) == seq![(v3 % 256) as u8] + le_bytes(v3 / 256, width));
    assert(le_bytes(value, width + 4) =~= seq![
        (value % 256) as u8,
        (v1 % 256) as u8,
        (v2 % 256) as u8,
        (v3 % 256) as u8,
    ] + le_bytes(v3 / 256, width));
}

/// Appends a `u32`, least significant byte first.
pub fn push_le32(out: &mut Vec<u8>, value: u32)
    ensures
        final(out)@ == old(out)@ + le_bytes(value as nat, 4),
{
    proof {
        lemma_le4(value as nat);
    }
    out.push((value % 256) as u8);
    out.push((value / 0x100 % 256) as u8);
    out.push((value / 0x1_0000 % 256) as u8);
    out.push((value / 0x100_0000) as u8);
    assert(out@ =~= old(out)@ + le_bytes(value as nat, 4));
}

/// Appends a `u64`, least significant byte first.
pub fn push_le64(out: &mut Vec<u8>, value: u64)
    ensures
        final(out)@ == old(out)@ + le_bytes(value as nat, 8),
{
    proof {
        lemma_le8(value as nat);
    }
    push_le32(out, (value % 0x1_0000_0000) as u32);
    push_le32(out, (value / 0x1_0000_0000) as u32);
    assert(out@ =~= old(out)@ + le_bytes(value as nat, 8));
}

/// Reads a `u32` at `at`, least significant byte first.
pub fn le32_at(data: &[u8], at: usize) -> (value: u32)
    requires
        at + 4 <= data.len(),
    ensures
        value == le_value(data@.subrange(at as int, at + 4)),
{
    let ghost part = data@.subrange(at as int, at + 4);
    proof {
        reveal_with_fuel(le_value, 5);
    }
    data[at] as u32 + data[at + 1] as u32 * 0x100 + data[at + 2] as u32 * 0x1_0000
        + data[at + 3] as u32 * 0x100_0000
}

/// Reads a `u64` at `at`, least significant byte first.
pub fn le64_at(data: &[u8], at: usize) -> (value: u64)
    requires
        at + 8 <= data.len(),
    ensures
        value == le_value(data@.subrange(at as int, at + 8)),
{
    let low: u32 = le32_at(data, at);
    let high: u32 = le32_at(data, at + 4);
    proof {
        let part = data@.subrange(at as int, at + 8);
        let low_part = data@.subrange(at as int, at + 4);
        reveal_with_fuel(le_value, 5);
        assert(part.skip(1).skip(1).skip(1).skip(1) =~= data@.subrange(at + 4, at + 8));
        assert(part.skip(1)[0] == low_part.skip(1)[0]);
        assert(part.skip(1).skip(1)[0] == low_part.skip(1).skip(1)[0]);
        assert(part.skip(1).skip(1).skip(1)[0] == low_part.skip(1).skip(1).skip(1)[0]);
    }
    low as u64 + high as u64 * 0x1_0000_0000
}

} // verus!
