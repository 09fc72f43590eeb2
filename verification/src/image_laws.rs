//! Where the bytes of a bitmap stand, and what the hash of a frame tells apart.
use vstd::prelude::*;

use crate::bitmap::{bitmap_bytes, bitmap_header, image_fits, law_bitmap_layout};
use crate::bytes::{le_bytes, lemma_le4, lemma_le_len};
use crate::dxgi::{fnv_bytes, fnv_rows, fnv_step, result_code, whole_rows};

verus! {

/// The number in four bytes, least significant first.
pub open spec fn low_word(data: Seq<u8>, at: int) -> int {
    data[at] + data[at + 1] * 0x100 + data[at + 2] * 0x1_0000 + data[at + 3] * 0x100_0000
}

proof fn lemma_put_low_word(data: Seq<u8>, at: int, value: nat)
    requires
        0 <= at,
        at + 4 <= data.len(),
        value <= u32::MAX,
        data.subrange(at, at + 4) =~= le_bytes(value, 4),
    ensures
        low_word(data, at) == value,
{
    let part = data.subrange(at, at + 4);
    assert(part[0] == data[at] && part[1] == data[at + 1] && part[2] == data[at + 2] && part[3] == data[at
        + 3]);
    lemma_le4(value);
}

/// A bitmap starts with `BM` and its length; its pixels start at byte 54, behind
/// a description of 40 bytes: width, height, one plane of 32 bits for a pixel, no
/// compression, the length of the pixels, and the resolution both ways.
#[verifier::rlimit(60)]
pub proof fn law_bitmap_header(width: u32, height: u32, pixels_per_meter: u32)
    requires
        54 + width * 4 * height <= u32::MAX,
    ensures
        ({
            let header = bitmap_header(width as nat, height as nat, pixels_per_meter as nat);
            &&& header.len() == 54
            &&& header[0] == 0x42 && header[1] == 0x4d
            &&& low_word(header, 2) == 54 + 4 * (width * height)
            &&& low_word(header, 6) == 0
            &&& low_word(header, 10) == 54
            &&& low_word(header, 14) == 40
            &&& low_word(header, 18) == width
            &&& low_word(header, 22) == height
            &&& header[26] == 1 && header[27] == 0
            &&& header[28] == 32 && header[29] == 0
            &&& low_word(header, 30) == 0
            &&& low_word(header, 34) == 4 * (width * height)
            &&& low_word(header, 38) == pixels_per_meter
            &&& low_word(header, 42) == pixels_per_meter
            &&& low_word(header, 46) == 0
            &&& low_word(header, 50) == 0
        }),
{
    let pixels = width * 4 * height;
    assert(pixels == 4 * (width * height)) by (nonlinear_arith)
        requires
            pixels == width * 4 * height,
    ;
    assert(0 <= width * height) by (nonlinear_arith)
        requires
            0 <= width,
            0 <= height,
    ;
    lemma_header_bytes(width as nat, height as nat, pixels_per_meter as nat);
    let header = bitmap_header(width as nat, height as nat, pixels_per_meter as nat);
    lemma_put_low_word(header, 2, (54 + pixels) as nat);
    lemma_put_low_word(header, 6, 0);
    lemma_put_low_word(header, 10, 54);
    lemma_put_low_word(header, 14, 40);
    lemma_put_low_word(header, 18, width as nat);
    lemma_put_low_word(header, 22, height as nat);
    lemma_put_low_word(header, 30, 0);
    lemma_put_low_word(header, 34, pixels as nat);
    lemma_put_low_word(header, 38, pixels_per_meter as nat);
    lemma_put_low_word(header, 42, pixels_per_meter as nat);
    lemma_put_low_word(header, 46, 0);
    lemma_put_low_word(header, 50, 0);
}

#[verifier::rlimit(60)]
proof fn lemma_header_bytes(width: nat, height: nat, pixels_per_meter: nat)
    ensures
        ({
            let header = bitmap_header(width, height, pixels_per_meter);
            let pixels = width * 4 * height;
            &&& header.len() == 54
            &&& header[0] == 0x42 && header[1] == 0x4d
            &&& header.subrange(2, 6) == le_bytes((54 + pixels) % 0x1_0000_0000, 4)
            &&& header.subrange(6, 10) == le_bytes(0, 4)
            &&& header.subrange(10, 14) == le_bytes(54, 4)
            &&& header.subrange(14, 18) == le_bytes(40, 4)
            &&& header.subrange(18, 22) == le_bytes(width, 4)
            &&& header.subrange(22, 26) == le_bytes(height, 4)
            &&& header[26] == 1 && header[27] == 0
            &&& header[28] == 32 && header[29] == 0
            &&& header.subrange(30, 34) == le_bytes(0, 4)
            &&& header.subrange(34, 38) == le_bytes(pixels % 0x1_0000_0000, 4)
            &&& header.subrange(38, 42) == le_bytes(pixels_per_meter, 4)
            &&& header.subrange(42, 46) == le_bytes(pixels_per_meter, 4)
            &&& header.subrange(46, 50) == le_bytes(0, 4)
            &&& header.subrange(50, 54) == le_bytes(0, 4)
        }),
{
    broadcast use lemma_le_len;

    let header = bitmap_header(width, height, pixels_per_meter);
    let one = le_bytes(1, 2);
    let bits = le_bytes(32, 2);
    lemma_le2(1);
    lemma_le2(32);
    assert(header[26] == one[0] && header[27] == one[1]);
    assert(header[28] == bits[0] && header[29] == bits[1]);
}

proof fn lemma_le2(value: nat)
    requires
        value < 256,
    ensures
        le_bytes(value, 2) == seq![value as u8, 0u8],
{
    reveal_with_fuel(le_bytes, 3);
    assert(le_bytes(value, 2) =~= seq![value as u8, 0u8]);
}

/// A byte of an image stands in its bitmap behind the header and the rows below
/// its own; what lies between the rows of the image is left out.
pub proof fn law_bitmap_is_bottom_up(
    data: Seq<u8>,
    stride: int,
    width: nat,
    height: nat,
    pixels_per_meter: nat,
    row: int,
    at: int,
)
    requires
        image_fits(data.len() as int, stride, width as int, height as int),
        0 <= row < height,
        0 <= at < 4 * width,
    ensures
        bitmap_bytes(data, stride, width, height, pixels_per_meter).len() == 54 + height * (width * 4),
        bitmap_bytes(data, stride, width, height, pixels_per_meter)[54 + (height - 1 - row) * (width * 4)
            + at] == data[row * stride + at],
{
    law_bitmap_layout(data, stride, width, height, pixels_per_meter, row);
    let file = bitmap_bytes(data, stride, width, height, pixels_per_meter);
    let start = 54 + (height - 1 - row) * (width * 4);
    let offset = (height - 1 - row) * (width * 4);
    assert(0 <= offset && offset + width * 4 <= height * (width * 4)) by (nonlinear_arith)
        requires
            offset == (height - 1 - row) * (width * 4),
            0 <= row < height,
            0 <= width,
    ;
    assert(0 <= row * stride && row * stride + stride <= stride * height) by (nonlinear_arith)
        requires
            0 <= row < height,
            0 <= stride,
    ;
    assert(file.subrange(start, start + width * 4)[at] == file[start + at]);
}

// ---------------------------------------------------------------------------
// Hashes
// ---------------------------------------------------------------------------

proof fn lemma_unmixed(x: u64)
    ensures
        (((x * 0x100_0000_01b3) % 0x1_0000_0000_0000_0000) * 0xce96_5057_aff6_957b)
            % 0x1_0000_0000_0000_0000 == x,
{
    let m: int = 0x1_0000_0000_0000_0000;
    let p: int = 0x100_0000_01b3;
    let q: int = 0xce96_5057_aff6_957b;
    vstd::arithmetic::div_mod::lemma_mul_mod_noop_left(x * p, q, m);
    assert((x * p) * q == x * (p * q)) by (nonlinear_arith);
    assert(p * q == 1 + m * ((p * q) / m));
    let c = (p * q) / m;
    assert(x * (p * q) == m * (c * x) + x) by (nonlinear_arith)
        requires
            p * q == 1 + m * c,
    ;
    vstd::arithmetic::div_mod::lemma_mod_multiples_vanish(c * x, x as int, m);
}

/// A step of the hash loses nothing: different hashes stay different under the
/// same byte, and different bytes give different hashes.
pub proof fn law_hash_step_loses_nothing(one: u64, other: u64, byte: u8, other_byte: u8)
    ensures
        fnv_step(one, byte) == fnv_step(other, byte) ==> one == other,
        fnv_step(one, byte) == fnv_step(one, other_byte) ==> byte == other_byte,
{
    let b = byte as u64;
    let c = other_byte as u64;
    lemma_unmixed(one ^ b);
    lemma_unmixed(other ^ b);
    lemma_unmixed(one ^ c);
    assert(one ^ b == other ^ b ==> one == other) by (bit_vector);
    assert(one ^ b == one ^ c ==> b == c) by (bit_vector);
}

/// The hash of nothing is the offset of 64-bit FNV, and a byte is mixed in by
/// flipping the hash's low bits with it and multiplying with the prime.
pub proof fn law_hash_is_fnv(data: Seq<u8>, row_bytes: nat, stride: int, hash: u64, byte: u8)
    ensures
        fnv_rows(data, row_bytes, stride, 0) == 14_695_981_039_346_656_037,
        fnv_step(hash, byte) as int == ((hash ^ byte as u64) * 1_099_511_628_211) % 0x1_0000_0000_0000_0000,
{
}

proof fn lemma_bytes_differ(one: u64, other: u64, left: Seq<u8>, right: Seq<u8>, at: int, count: nat)
    requires
        one != other,
        forall|i: int| 0 <= i < count ==> #[trigger] left[at + i] == right[at + i],
    ensures
        fnv_bytes(one, left, at, count) != fnv_bytes(other, right, at, count),
    decreases count,
{
    if count > 0 {
        let fewer = (count - 1) as nat;
        lemma_bytes_differ(one, other, left, right, at, fewer);
        assert(left[at + fewer] == right[at + fewer]);
        law_hash_step_loses_nothing(
            fnv_bytes(one, left, at, fewer),
            fnv_bytes(other, right, at, fewer),
            left[at + fewer],
            left[at + fewer],
        );
    }
}

proof fn lemma_byte_differs(hash: u64, left: Seq<u8>, right: Seq<u8>, at: int, count: nat, place: int)
    requires
        0 <= place < count,
        left[at + place] != right[at + place],
        forall|i: int| 0 <= i < count && i != place ==> #[trigger] left[at + i] == right[at + i],
    ensures
        fnv_bytes(hash, left, at, count) != fnv_bytes(hash, right, at, count),
    decreases count,
{
    let fewer = (count - 1) as nat;
    if place == fewer {
        lemma_bytes_agree(hash, left, right, at, fewer);
        law_hash_step_loses_nothing(
            fnv_bytes(hash, left, at, fewer),
            fnv_bytes(hash, left, at, fewer),
            left[at + fewer],
            right[at + fewer],
        );
    } else {
        lemma_byte_differs(hash, left, right, at, fewer, place);
        assert(left[at + fewer] == right[at + fewer]);
        law_hash_step_loses_nothing(
            fnv_bytes(hash, left, at, fewer),
            fnv_bytes(hash, right, at, fewer),
            left[at + fewer],
            left[at + fewer],
        );
    }
}

proof fn lemma_bytes_agree(hash: u64, left: Seq<u8>, right: Seq<u8>, at: int, count: nat)
    requires
        forall|i: int| 0 <= i < count ==> #[trigger] left[at + i] == right[at + i],
    ensures
        fnv_bytes(hash, left, at, count) == fnv_bytes(hash, right, at, count),
    decreases count,
{
    if count > 0 {
        let fewer = (count - 1) as nat;
        lemma_bytes_agree(hash, left, right, at, fewer);
        assert(left[at + fewer] == right[at + fewer]);
    }
}

/// Frames that differ in exactly one visible byte have different hashes, whichever
/// byte that is.
pub proof fn law_changed_byte_changes_the_hash(
    left: Seq<u8>,
    right: Seq<u8>,
    row_bytes: nat,
    stride: int,
    rows: nat,
    row: int,
    place: int,
)
    requires
        row_bytes <= stride,
        0 <= row < rows,
        0 <= place < row_bytes,
        left[row * stride + place] != right[row * stride + place],
        forall|at: int| at != row * stride + place ==> #[trigger] left[at] == right[at],
    ensures
        fnv_rows(left, row_bytes, stride, rows) != fnv_rows(right, row_bytes, stride, rows),
    decreases rows,
{
    let fewer = (rows - 1) as nat;
    let at = fewer * stride;
    if row == fewer {
        lemma_rows_agree(left, right, row_bytes, stride, fewer, row, place);
        lemma_byte_differs(
            fnv_rows(left, row_bytes, stride, fewer),
            left,
            right,
            at,
            row_bytes,
            place,
        );
    } else {
        law_changed_byte_changes_the_hash(left, right, row_bytes, stride, fewer, row, place);
        assert forall|i: int| 0 <= i < row_bytes implies #[trigger] left[at + i] == right[at + i] by {
            assert(at + i != row * stride + place) by (nonlinear_arith)
                requires
                    at == fewer * stride,
                    row < fewer,
                    0 <= i < stride,
                    0 <= place < stride,
            ;
        }
        lemma_bytes_differ(
            fnv_rows(left, row_bytes, stride, fewer),
            fnv_rows(right, row_bytes, stride, fewer),
            left,
            right,
            at,
            row_bytes,
        );
    }
}

proof fn lemma_rows_agree(
    left: Seq<u8>,
    right: Seq<u8>,
    row_bytes: nat,
    stride: int,
    rows: nat,
    row: int,
    place: int,
)
    requires
        row_bytes <= stride,
        rows <= row,
        0 <= place < row_bytes,
        forall|at: int| at != row * stride + place ==> #[trigger] left[at] == right[at],
    ensures
        fnv_rows(left, row_bytes, stride, rows) == fnv_rows(right, row_bytes, stride, rows),
    decreases rows,
{
    if rows > 0 {
        let fewer = (rows - 1) as nat;
        let at = fewer * stride;
        lemma_rows_agree(left, right, row_bytes, stride, fewer, row, place);
        assert forall|i: int| 0 <= i < row_bytes implies #[trigger] left[at + i] == right[at + i] by {
            assert(at + i != row * stride + place) by (nonlinear_arith)
                requires
                    at == fewer * stride,
                    fewer < row,
                    0 <= i < stride,
                    0 <= place < stride,
            ;
        }
        lemma_bytes_agree(fnv_rows(left, row_bytes, stride, fewer), left, right, at, row_bytes);
    }
}

/// All rows count that the buffer holds whole, from the first on: each of them
/// ends within the buffer, and where one is left out the next ends behind it.
pub proof fn law_whole_rows_count(len: int, row_bytes: int, height: nat, stride: int)
    requires
        0 <= stride,
    ensures
        ({
            let rows = whole_rows(len, row_bytes, height, stride);
            &&& 0 <= rows <= height
            &&& forall|row: int| 0 <= row < rows ==> #[trigger] (row * stride) + row_bytes <= len
            &&& rows < height ==> rows * stride + row_bytes > len
        }),
    decreases height,
{
    if height > 0 {
        let fewer = (height - 1) as nat;
        law_whole_rows_count(len, row_bytes, fewer, stride);
        let before = whole_rows(len, row_bytes, fewer, stride);
        let rows = whole_rows(len, row_bytes, height, stride);
        if before == fewer && fewer * stride + row_bytes <= len {
            assert forall|row: int| 0 <= row < rows implies #[trigger] (row * stride) + row_bytes <= len by {
                if row < fewer {
                    assert((row * stride) + row_bytes <= len);
                }
            }
        }
    }
}

/// The code of a result is its 32 bits read without a sign.
pub proof fn law_result_code(hr: i32)
    ensures
        result_code(hr) < 0x1_0000_0000,
        (result_code(hr) - hr) % 0x1_0000_0000 == 0,
{
}

} // verus!
