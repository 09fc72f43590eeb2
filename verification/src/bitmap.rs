//! Uncompressed 32-bit bitmaps.
use vstd::prelude::*;
use vstd::slice::slice_subrange;

use crate::bytes::{le_bytes, lemma_le_len, push_le16, push_le32};

verus! {

/// The first 54 bytes of a bitmap.
pub open spec fn bitmap_header(width: nat, height: nat, pixels_per_meter: nat) -> Seq<u8> {
    let pixel_bytes = width * 4 * height;
    seq![0x42u8, 0x4du8] + le_bytes((54 + pixel_bytes) % 0x1_0000_0000, 4) + le_bytes(0, 4) + le_bytes(
        54,
        4,
    ) + le_bytes(40, 4) + le_bytes(width, 4) + le_bytes(height, 4) + le_bytes(1, 2) + le_bytes(32, 2)
        + le_bytes(0, 4) + le_bytes(pixel_bytes % 0x1_0000_0000, 4) + le_bytes(pixels_per_meter, 4)
        + le_bytes(pixels_per_meter, 4) + le_bytes(0, 4) + le_bytes(0, 4)
}

/// Row `row` of an image whose rows start `stride` bytes apart.
pub open spec fn image_row(data: Seq<u8>, stride: int, row_bytes: int, row: int) -> Seq<u8> {
    data.subrange(row * stride, row * stride + row_bytes)
}

/// The first `rows` rows, the last of them first.
pub open spec fn flipped_rows(data: Seq<u8>, stride: int, row_bytes: int, rows: nat) -> Seq<u8>
    decreases rows,
{
    if rows == 0 {
        seq![]
    } else {
        image_row(data, stride, row_bytes, rows - 1) + flipped_rows(
            data,
            stride,
            row_bytes,
            (rows - 1) as nat,
        )
    }
}

/// A bitmap file: the header, then the rows from the bottom up.
pub open spec fn bitmap_bytes(
    data: Seq<u8>,
    stride: int,
    width: nat,
    height: nat,
    pixels_per_meter: nat,
) -> Seq<u8> {
    bitmap_header(width, height, pixels_per_meter) + flipped_rows(
        data,
        stride,
        width as int * 4,
        height,
    )
}

fn push_header(out: &mut Vec<u8>, width: u32, height: u32, pixels_per_meter: u32)
    ensures
        final(out)@ == old(out)@ + bitmap_header(width as nat, height as nat, pixels_per_meter as nat),
{
    proof {
        assert(width * 4 * height <= 0x3_ffff_fffc * 0xffff_ffff) by (nonlinear_arith)
            requires
                0 <= width <= 0xffff_ffff,
                0 <= height <= 0xffff_ffff,
        ;
        assert(0 <= width * 4 * height) by (nonlinear_arith)
            requires
                0 <= width,
                0 <= height,
        ;
    }
    let pixel_bytes: u128 = width as u128 * 4 * height as u128;
    out.push(0x42);
    out.push(0x4d);
    push_le32(out, ((54 + pixel_bytes) % 0x1_0000_0000) as u32);
    push_le32(out, 0);
    push_le32(out, 54);
    push_le32(out, 40);
    push_le32(out, width);
    push_le32(out, height);
    push_le16(out, 1);
    push_le16(out, 32);
    push_le32(out, 0);
    push_le32(out, (pixel_bytes % 0x1_0000_0000) as u32);
    push_le32(out, pixels_per_meter);
    push_le32(out, pixels_per_meter);
    push_le32(out, 0);
    push_le32(out, 0);
    assert(out@ =~= old(out)@ + bitmap_header(width as nat, height as nat, pixels_per_meter as nat));
}

/// Whether an image of that size and stride lies within `len` bytes.
pub open spec fn image_fits(len: int, stride: int, width: int, height: int) -> bool {
    width * 4 <= stride && stride * height <= len
}

/// The bitmap of an image.
pub fn encode_bitmap(
    data: &[u8],
    stride: usize,
    width: u32,
    height: u32,
    pixels_per_meter: u32,
) -> (file: Vec<u8>)
    requires
        image_fits(data.len() as int, stride as int, width as int, height as int),
    ensures
        file@ == bitmap_bytes(
            data@,
            stride as int,
            width as nat,
            height as nat,
            pixels_per_meter as nat,
        ),
{
    let row_bytes: usize = width as usize * 4;
    let mut file: Vec<u8> = Vec::new();
    push_header(&mut file, width, height, pixels_per_meter);
    let ghost head = file@;
    assert(head =~= bitmap_header(width as nat, height as nat, pixels_per_meter as nat));
    let ghost whole = flipped_rows(data@, stride as int, row_bytes as int, height as nat);
    let mut row: u32 = height;
    while row > 0
        invariant
            row <= height,
            row_bytes == width * 4,
            image_fits(data.len() as int, stride as int, width as int, height as int),
            head + whole == file@ + flipped_rows(
                data@,
                stride as int,
                row_bytes as int,
                row as nat,
            ),
        decreases row,
    {
        let ghost before = file@;
        proof {
            assert((row - 1) * stride + stride <= stride * height) by (nonlinear_arith)
                requires
                    1 <= row <= height,
                    0 <= stride,
            ;
            assert(0 <= (row - 1) * stride) by (nonlinear_arith)
                requires
                    1 <= row,
                    0 <= stride,
            ;
        }
        let start: usize = (row - 1) as usize * stride;
        file.extend_from_slice(slice_subrange(data, start, start + row_bytes));
        proof {
            let part = image_row(data@, stride as int, row_bytes as int, row - 1);
            let rest = flipped_rows(data@, stride as int, row_bytes as int, (row - 1) as nat);
            assert(file@ =~= before + part);
            assert(before + (part + rest) =~= (before + part) + rest);
        }
        row -= 1;
    }
    assert(file@ =~= head + whole);
    file
}

proof fn lemma_flipped_len(data: Seq<u8>, stride: int, row_bytes: int, rows: nat)
    requires
        0 <= row_bytes <= stride,
        stride * rows <= data.len(),
    ensures
        flipped_rows(data, stride, row_bytes, rows).len() == rows * row_bytes,
    decreases rows,
{
    if rows > 0 {
        assert(stride * (rows - 1) + stride == stride * rows) by (nonlinear_arith);
        assert((rows - 1) * stride == stride * (rows - 1)) by (nonlinear_arith);
        assert(0 <= (rows - 1) * stride) by (nonlinear_arith)
            requires
                1 <= rows,
                0 <= stride,
        ;
        lemma_flipped_len(data, stride, row_bytes, (rows - 1) as nat);
        assert((rows - 1) * row_bytes + row_bytes == rows * row_bytes) by (nonlinear_arith);
    } else {
        assert(rows * row_bytes == 0) by (nonlinear_arith)
            requires
                rows == 0,
        ;
    }
}

/// A bitmap is 54 bytes longer than its pixels, and its rows can be read back:
/// row `row` stands behind the rows below it.
pub proof fn law_bitmap_layout(
    data: Seq<u8>,
    stride: int,
    width: nat,
    height: nat,
    pixels_per_meter: nat,
    row: int,
)
    requires
        image_fits(data.len() as int, stride, width as int, height as int),
        0 <= row < height,
    ensures
        ({
            let file = bitmap_bytes(data, stride, width, height, pixels_per_meter);
            let start = 54 + (height - 1 - row) * (width * 4);
            &&& file.len() == 54 + height * (width * 4)
            &&& file.subrange(start, start + width * 4) == image_row(data, stride, width as int * 4, row)
        }),
{
    broadcast use lemma_le_len;

    let row_bytes = width as int * 4;
    let rows = flipped_rows(data, stride, row_bytes, height);
    lemma_flipped_len(data, stride, row_bytes, height);
    lemma_flipped_row(data, stride, row_bytes, height, row);
    let file = bitmap_bytes(data, stride, width, height, pixels_per_meter);
    let offset = (height - 1 - row) * row_bytes;
    assert(0 <= offset && offset + row_bytes <= height * row_bytes) by (nonlinear_arith)
        requires
            offset == (height - 1 - row) * row_bytes,
            0 <= row < height,
            0 <= row_bytes,
    ;
    let start = 54 + offset;
    assert(file.subrange(start, start + row_bytes) =~= rows.subrange(offset, offset + row_bytes));
}

proof fn lemma_flipped_row(data: Seq<u8>, stride: int, row_bytes: int, rows: nat, row: int)
    requires
        0 <= row_bytes <= stride,
        stride * rows <= data.len(),
        0 <= row < rows,
    ensures
        ({
            let offset = (rows - 1 - row) * row_bytes;
            flipped_rows(data, stride, row_bytes, rows).subrange(offset, offset + row_bytes)
                == image_row(data, stride, row_bytes, row)
        }),
    decreases rows,
{
    let all = flipped_rows(data, stride, row_bytes, rows);
    let offset = (rows - 1 - row) * row_bytes;
    assert(stride * (rows - 1) + stride == stride * rows) by (nonlinear_arith);
    assert((rows - 1) * stride == stride * (rows - 1)) by (nonlinear_arith);
    assert(0 <= (rows - 1) * stride) by (nonlinear_arith)
        requires
            1 <= rows,
            0 <= stride,
    ;
    lemma_flipped_len(data, stride, row_bytes, rows);
    lemma_flipped_len(data, stride, row_bytes, (rows - 1) as nat);
    let first = image_row(data, stride, row_bytes, rows - 1);
    if row == rows - 1 {
        assert(offset == 0) by (nonlinear_arith)
            requires
                offset == (rows - 1 - row) * row_bytes,
                row == rows - 1,
        ;
        assert(all.subrange(0, row_bytes) =~= first);
    } else {
        let fewer = (rows - 1) as nat;
        lemma_flipped_row(data, stride, row_bytes, fewer, row);
        let inner = (fewer - 1 - row) * row_bytes;
        assert(offset == inner + row_bytes) by (nonlinear_arith)
            requires
                offset == (rows - 1 - row) * row_bytes,
                inner == (rows - 1 - 1 - row) * row_bytes,
        ;
        assert(0 <= inner && inner + row_bytes <= fewer * row_bytes) by (nonlinear_arith)
            requires
                inner == (fewer - 1 - row) * row_bytes,
                0 <= row < fewer,
                0 <= row_bytes,
        ;
        let rest = flipped_rows(data, stride, row_bytes, fewer);
        assert(all.subrange(offset, offset + row_bytes) =~= rest.subrange(inner, inner + row_bytes));
    }
}

} // verus!
