//! What the planes of a picture mean: the colours they decode to, the changes and
//! the error between them, and the room they take.
use vstd::prelude::*;

use crate::netprobe::wire::ceil_div;
use crate::screen::corpus::PixelFormat;
use crate::screen::yuv::{
    active_count, block_changed, bmp_fault, changed_at, conversion_fault, hw_fault, hw_image_fault,
    hw_pixel, layout_len, map_columns, map_rows, picture_fault, picture_image_fault, picture_inside,
    picture_pixel, picture_present, plane_error, row_error, squared, truncated32, yuv_color,
    DecodedPicture, EncodeYuvFormat, HwFrame, HwPixelFormat, YuvBuffer,
};

verus! {

// ---------------------------------------------------------------------------
// Colours
// ---------------------------------------------------------------------------

/// Whether a channel is a sum of 256ths, rounded down, kept between 0 and 255.
pub open spec fn rounds_to(value: u8, sum: int) -> bool {
    &&& 0 <= sum < 0x1_0000 ==> 256 * value <= sum < 256 * (value + 1)
    &&& sum < 0 ==> value == 0
    &&& sum >= 0x1_0000 ==> value == 255
}

/// A studio-range sample becomes the colour that the integer form of BT.601
/// gives it: luma from 16 on, chroma around 128, in 256ths and to the nearest.
#[verifier::rlimit(60)]
pub proof fn law_samples_become_bt601_colors(luma: u8, cb: u8, cr: u8)
    ensures
        ({
            let color = yuv_color(luma, cb, cr);
            let light = 298 * (if luma >= 16 { luma - 16 } else { 0 }) + 128;
            &&& rounds_to(color.b, light + 516 * (cb - 128))
            &&& rounds_to(color.g, light - 100 * (cb - 128) - 208 * (cr - 128))
            &&& rounds_to(color.r, light + 409 * (cr - 128))
            &&& color.a == 255
        }),
{
}

/// Samples without chroma are gray: black up to luma 16, white from 235 on, and
/// in between brighter with every step of luma.
#[verifier::rlimit(60)]
pub proof fn law_neutral_chroma_is_gray(luma: u8, brighter: u8)
    requires
        luma < brighter,
    ensures
        ({
            let dark = yuv_color(luma, 128, 128);
            let light = yuv_color(brighter, 128, 128);
            &&& dark.b == dark.g == dark.r
            &&& luma <= 16 ==> dark.b == 0
            &&& luma >= 235 ==> dark.b == 255
            &&& 16 <= luma && brighter <= 235 ==> dark.b < light.b
        }),
{
}

/// More luma never darkens a channel; more blue chroma gives at least as much
/// blue, at most as much green and the same red; more red chroma gives at least
/// as much red, at most as much green and the same blue.
#[verifier::rlimit(60)]
pub proof fn law_colors_follow_their_samples(luma: u8, cb: u8, cr: u8, more: u8)
    ensures
        more >= luma ==> {
            let from = yuv_color(luma, cb, cr);
            let to = yuv_color(more, cb, cr);
            to.b >= from.b && to.g >= from.g && to.r >= from.r
        },
        more >= cb ==> {
            let from = yuv_color(luma, cb, cr);
            let to = yuv_color(luma, more, cr);
            to.b >= from.b && to.g <= from.g && to.r == from.r
        },
        more > cb ==> {
            let from = yuv_color(luma, cb, cr);
            let to = yuv_color(luma, more, cr);
            to.b > from.b || to.b == 255 || from.b == 0
        },
        more >= cr ==> {
            let from = yuv_color(luma, cb, cr);
            let to = yuv_color(luma, cb, more);
            to.b == from.b && to.g <= from.g && to.r >= from.r
        },
        more > cr ==> {
            let from = yuv_color(luma, cb, cr);
            let to = yuv_color(luma, cb, more);
            to.r > from.r || to.r == 255 || from.r == 0
        },
{
}

// ---------------------------------------------------------------------------
// Pictures
// ---------------------------------------------------------------------------

/// In a picture with quarter-size chroma, a pixel is the colour of its own luma
/// sample with the chroma samples at half its coordinates: column `cx` and row
/// `cy` of a chroma plane serve the pixels with `2 * cx <= x <= 2 * cx + 1` and
/// `2 * cy <= y <= 2 * cy + 1`. With full-size chroma a pixel has its own.
pub proof fn law_pixel_has_its_samples(picture: DecodedPicture, x: int, y: int, cx: int, cy: int)
    requires
        picture_present(picture),
        0 <= x < picture.width,
        0 <= y < picture.height,
        picture.i444 ==> cx == x && cy == y,
        !picture.i444 ==> 2 * cx <= x <= 2 * cx + 1 && 2 * cy <= y <= 2 * cy + 1,
    ensures
        picture_pixel(picture, x, y) == yuv_color(
            picture.y.data->0@[y * picture.y.stride + x],
            picture.u.data->0@[cy * picture.u.stride + cx],
            picture.v.data->0@[cy * picture.v.stride + cx],
        ),
{
    if !picture.i444 {
        assert(cx == x / 2 && cy == y / 2);
    }
}

/// Another value of one chroma sample of a picture with quarter-size chroma
/// changes no pixel outside the square of two by two that the sample serves. In
/// each pixel of that square the channel that the plane carries moves with the
/// sample, unless it is at its end.
#[verifier::rlimit(60)]
pub proof fn law_chroma_sample_serves_its_square(
    before: DecodedPicture,
    after: DecodedPicture,
    cx: int,
    cy: int,
    x: int,
    y: int,
)
    requires
        picture_present(before),
        picture_present(after),
        picture_inside(before),
        !before.i444,
        !after.i444,
        before.width == after.width,
        before.height == after.height,
        before.y.stride == after.y.stride,
        before.u.stride == after.u.stride,
        before.v.stride == after.v.stride,
        before.u.stride >= (before.width + 1) / 2,
        before.y.data->0@ == after.y.data->0@,
        before.v.data->0@ == after.v.data->0@,
        before.u.data->0@.len() == after.u.data->0@.len(),
        0 <= cx < before.u.stride,
        0 <= cy,
        forall|at: int|
            0 <= at < before.u.data->0@.len() && at != cy * before.u.stride + cx
                ==> #[trigger] before.u.data->0@[at] == after.u.data->0@[at],
        0 <= x < before.width,
        0 <= y < before.height,
    ensures
        x / 2 != cx || y / 2 != cy ==> picture_pixel(after, x, y) == picture_pixel(before, x, y),
        x / 2 == cx && y / 2 == cy && after.u.data->0@[cy * before.u.stride + cx]
            > before.u.data->0@[cy * before.u.stride + cx] ==> {
            let from = picture_pixel(before, x, y);
            let to = picture_pixel(after, x, y);
            to.b > from.b || to.b == 255 || from.b == 0
        },
{
    let stride = before.u.stride as int;
    let row = y / 2;
    let column = x / 2;
    let rows = (before.height + 1) / 2;
    assert(0 <= row * stride <= (rows - 1) * stride) by (nonlinear_arith)
        requires
            0 <= row <= rows - 1,
            0 <= stride,
    ;
    assert(0 <= column < (before.width + 1) / 2);
    assert(0 <= row * stride + column < before.u.data->0@.len());
    if column != cx || row != cy {
        assert(row * stride + column != cy * stride + cx) by (nonlinear_arith)
            requires
                column != cx || row != cy,
                0 <= column < stride,
                0 <= cx < stride,
        ;
        assert(before.u.data->0@[row * stride + column] == after.u.data->0@[row * stride + column]);
    } else {
        let at = row * stride + column;
        let place = y * before.y.stride + x;
        let cr = before.v.data->0@[row * before.v.stride + column];
        law_colors_follow_their_samples(
            before.y.data->0@[place],
            before.u.data->0@[at],
            cr,
            after.u.data->0@[at],
        );
    }
}

/// A picture with quarter-size chroma shows what the picture with full-size
/// chroma shows in which every chroma sample is doubled in both directions.
pub proof fn law_quarter_chroma_is_doubled(
    quarter: DecodedPicture,
    full: DecodedPicture,
    x: int,
    y: int,
)
    requires
        picture_present(quarter),
        picture_present(full),
        !quarter.i444,
        full.i444,
        quarter.width == full.width,
        quarter.height == full.height,
        0 <= x < quarter.width,
        0 <= y < quarter.height,
        forall|px: int, py: int|
            0 <= px < full.width && 0 <= py < full.height ==> #[trigger] full.y.data->0@[py
                * full.y.stride + px] == quarter.y.data->0@[py * quarter.y.stride + px],
        forall|px: int, py: int|
            0 <= px < full.width && 0 <= py < full.height ==> #[trigger] full.u.data->0@[py
                * full.u.stride + px] == quarter.u.data->0@[py / 2 * quarter.u.stride + px / 2],
        forall|px: int, py: int|
            0 <= px < full.width && 0 <= py < full.height ==> #[trigger] full.v.data->0@[py
                * full.v.stride + px] == quarter.v.data->0@[py / 2 * quarter.v.stride + px / 2],
    ensures
        picture_pixel(quarter, x, y) == picture_pixel(full, x, y),
{
    assert(full.y.data->0@[y * full.y.stride + x] == quarter.y.data->0@[y * quarter.y.stride + x]);
    assert(full.u.data->0@[y * full.u.stride + x] == quarter.u.data->0@[y / 2 * quarter.u.stride + x
        / 2]);
    assert(full.v.data->0@[y * full.v.stride + x] == quarter.v.data->0@[y / 2 * quarter.v.stride + x
        / 2]);
}

/// A hardware frame of three planes shows what a software picture with the same
/// planes shows.
pub proof fn law_hardware_planes_are_a_picture(frame: HwFrame, picture: DecodedPicture, x: int, y: int)
    requires
        hw_image_fault(frame) is None,
        frame.format == HwPixelFormat::Yuv420p,
        frame.linesize@.len() > 2,
        frame.linesize@[2] > 0,
        picture_present(picture),
        !picture.i444,
        picture.y.stride == frame.linesize@[0],
        picture.u.stride == frame.linesize@[1],
        picture.v.stride == frame.linesize@[2],
        picture.y.data->0@ == frame.data@[0]@,
        picture.u.data->0@ == frame.data@[1]@,
        picture.v.data->0@ == frame.data@[2]@,
    ensures
        hw_pixel(frame, x, y) == picture_pixel(picture, x, y),
{
}

/// A hardware frame of two planes shows what the frame of three planes shows
/// whose chroma planes are the even and the odd bytes of its second plane.
pub proof fn law_interleaved_chroma_is_two_planes(mixed: HwFrame, split: HwFrame, x: int, y: int)
    requires
        hw_image_fault(mixed) is None,
        hw_image_fault(split) is None,
        mixed.format == HwPixelFormat::Nv12,
        split.format == HwPixelFormat::Yuv420p,
        mixed.linesize@[0] == split.linesize@[0],
        mixed.data@[0]@ == split.data@[0]@,
        split.linesize@.len() > 2,
        split.linesize@[2] > 0,
        forall|cx: int, cy: int|
            0 <= cx && 0 <= cy ==> #[trigger] split.data@[1]@[cy * split.linesize@[1] + cx]
                == mixed.data@[1]@[cy * mixed.linesize@[1] + 2 * cx],
        forall|cx: int, cy: int|
            0 <= cx && 0 <= cy ==> #[trigger] split.data@[2]@[cy * split.linesize@[2] + cx]
                == mixed.data@[1]@[cy * mixed.linesize@[1] + 2 * cx + 1],
        0 <= x,
        0 <= y,
    ensures
        hw_pixel(mixed, x, y) == hw_pixel(split, x, y),
{
    let cx = x / 2;
    let cy = y / 2;
    assert(split.data@[1]@[cy * split.linesize@[1] + cx] == mixed.data@[1]@[cy * mixed.linesize@[1] + 2
        * cx]);
    assert(split.data@[2]@[cy * split.linesize@[2] + cx] == mixed.data@[1]@[cy * mixed.linesize@[1] + 2
        * cx + 1]);
}

// ---------------------------------------------------------------------------
// Changes
// ---------------------------------------------------------------------------

/// A place has changed exactly if its samples are two or more apart.
pub proof fn law_change_is_two_steps(
    data: Seq<u8>,
    previous: Seq<u8>,
    stride: int,
    x: int,
    y: int,
)
    ensures
        changed_at(data, previous, stride, x, y) <==> data[y * stride + x] - previous[y * stride + x] >= 2
            || previous[y * stride + x] - data[y * stride + x] >= 2,
        changed_at(data, previous, stride, x, y) == changed_at(previous, data, stride, x, y),
{
}

/// A change at a visible place makes the block active that holds the place.
pub proof fn law_change_activates_its_block(buffer: YuvBuffer, previous: Seq<u8>, x: int, y: int)
    requires
        0 <= x < buffer.format.w,
        0 <= y < buffer.format.h,
        ({
            let at = y * buffer.format.stride@[0] + x;
            buffer.data@[at] - previous[at] >= 2 || previous[at] - buffer.data@[at] >= 2
        }),
    ensures
        block_changed(buffer, previous, x / 16, y / 16),
{
    assert(changed_at(buffer.data@, previous, buffer.format.stride@[0] as int, x, y));
}

/// A block is inactive where none of its visible samples has moved by more than
/// one step.
pub proof fn law_quiet_block_is_inactive(
    buffer: YuvBuffer,
    previous: Seq<u8>,
    block_x: int,
    block_y: int,
)
    requires
        0 <= block_x,
        0 <= block_y,
        forall|x: int, y: int|
            0 <= x < buffer.format.w && 0 <= y < buffer.format.h && x / 16 == block_x && y / 16 == block_y
                ==> -1 <= #[trigger] buffer.data@[y * buffer.format.stride@[0] + x] - previous[y
                * buffer.format.stride@[0] + x] <= 1,
    ensures
        !block_changed(buffer, previous, block_x, block_y),
{
    let stride = buffer.format.stride@[0] as int;
    if block_changed(buffer, previous, block_x, block_y) {
        let (x, y) = choose|x: int, y: int|
            block_x * 16 <= x < block_x * 16 + 16 && x < buffer.format.w && block_y * 16 <= y < block_y
                * 16 + 16 && y < buffer.format.h && #[trigger] changed_at(
                buffer.data@,
                previous,
                stride,
                x,
                y,
            );
        let moved = buffer.data@[y * buffer.format.stride@[0] + x] - previous[y * stride + x];
        assert(-1 <= moved <= 1);
    }
}

/// Every visible place has its block in the map, and no block of the map is
/// without one.
pub proof fn law_map_covers_the_frame(format: EncodeYuvFormat, x: int, y: int)
    requires
        0 <= x < format.w,
        0 <= y < format.h,
    ensures
        0 <= x / 16 < map_columns(format),
        0 <= y / 16 < map_rows(format),
        16 * (map_columns(format) - 1) < format.w <= 16 * map_columns(format),
        16 * (map_rows(format) - 1) < format.h <= 16 * map_rows(format),
{
}

/// The active blocks of a map are those that are not zero.
pub proof fn law_active_blocks_are_counted(map: Seq<u8>)
    ensures
        active_count(map) == map.filter(|block: u8| block != 0).len(),
    decreases map.len(),
{
    reveal(Seq::filter);
    if map.len() > 0 {
        law_active_blocks_are_counted(map.drop_last());
    }
}

// ---------------------------------------------------------------------------
// Luma error
// ---------------------------------------------------------------------------

proof fn lemma_row_agrees(
    source: Seq<u8>,
    at: int,
    first: Seq<u8>,
    first_at: int,
    second: Seq<u8>,
    second_at: int,
    count: nat,
)
    requires
        forall|x: int| 0 <= x < count ==> #[trigger] first[first_at + x] == second[second_at + x],
    ensures
        row_error(source, at, first, first_at, count) == row_error(source, at, second, second_at, count),
    decreases count,
{
    if count > 0 {
        lemma_row_agrees(source, at, first, first_at, second, second_at, (count - 1) as nat);
        let x = count - 1;
        assert(first[first_at + x] == second[second_at + x]);
    }
}

proof fn lemma_row_step(
    source: Seq<u8>,
    at: int,
    first: Seq<u8>,
    second: Seq<u8>,
    row_at: int,
    count: nat,
    x: int,
)
    requires
        0 <= x < count,
        forall|k: int| 0 <= k < count && k != x ==> #[trigger] first[row_at + k] == second[row_at + k],
    ensures
        row_error(source, at, second, row_at, count) - row_error(source, at, first, row_at, count)
            == squared(source[at + x], second[row_at + x]) - squared(source[at + x], first[row_at + x]),
    decreases count,
{
    let rest = (count - 1) as nat;
    if x == count - 1 {
        lemma_row_agrees(source, at, first, row_at, second, row_at, rest);
    } else {
        lemma_row_step(source, at, first, second, row_at, rest, x);
        assert(first[row_at + rest] == second[row_at + rest]);
    }
}

proof fn lemma_row_nonnegative(source: Seq<u8>, at: int, decoded: Seq<u8>, row_at: int, count: nat)
    ensures
        row_error(source, at, decoded, row_at, count) >= 0,
        row_error(source, at, decoded, row_at, count) == 0 <==> forall|x: int|
            0 <= x < count ==> #[trigger] decoded[row_at + x] == source[at + x],
    decreases count,
{
    if count > 0 {
        let rest = (count - 1) as nat;
        lemma_row_nonnegative(source, at, decoded, row_at, rest);
        let d = source[at + rest] - decoded[row_at + rest];
        assert(d * d >= 0 && (d * d == 0 <==> d == 0)) by (nonlinear_arith);
        if row_error(source, at, decoded, row_at, count) == 0 {
            assert forall|x: int| 0 <= x < count implies #[trigger] decoded[row_at + x] == source[at + x] by {
                if x == rest {
                    assert(d == 0);
                }
            }
        }
        if forall|x: int| 0 <= x < count ==> #[trigger] decoded[row_at + x] == source[at + x] {
            assert(decoded[row_at + rest] == source[at + rest]);
        }
    }
}

/// The error of a plane is zero exactly if the visible samples agree, and never
/// negative; what lies beside the visible samples does not count.
pub proof fn law_error_is_zero_only_if_equal(source: YuvBuffer, decoded: Seq<u8>, stride: int, rows: nat)
    ensures
        plane_error(source, decoded, stride, rows) >= 0,
        plane_error(source, decoded, stride, rows) == 0 <==> forall|x: int, y: int|
            0 <= x < source.format.w && 0 <= y < rows ==> #[trigger] decoded[y * stride + x]
                == source.data@[y * source.format.stride@[0] + x],
    decreases rows,
{
    let w = source.format.w as nat;
    let own = source.format.stride@[0] as int;
    if rows > 0 {
        let rest = (rows - 1) as nat;
        law_error_is_zero_only_if_equal(source, decoded, stride, rest);
        lemma_row_nonnegative(source.data@, rest * own, decoded, rest * stride, w);
        if plane_error(source, decoded, stride, rows) == 0 {
            assert forall|x: int, y: int| 0 <= x < w && 0 <= y < rows implies #[trigger] decoded[y * stride + x]
                == source.data@[y * own + x] by {
                if y == rest {
                    assert(decoded[rest * stride + x] == source.data@[rest * own + x]);
                }
            }
        }
        if forall|x: int, y: int|
            0 <= x < w && 0 <= y < rows ==> #[trigger] decoded[y * stride + x] == source.data@[y * own
                + x] {
            assert forall|x: int| 0 <= x < w implies #[trigger] decoded[rest * stride + x]
                == source.data@[rest * own + x] by {}
        }
    }
}

/// A visible sample adds the square of its difference, once: where two decoded
/// planes differ in one sample, their errors differ by that sample's squares.
pub proof fn law_error_counts_each_sample_once(
    source: YuvBuffer,
    first: Seq<u8>,
    second: Seq<u8>,
    stride: int,
    rows: nat,
    x: int,
    y: int,
)
    requires
        source.format.w <= stride,
        0 <= x < source.format.w,
        0 <= y < rows,
        forall|at: int| at != y * stride + x ==> #[trigger] first[at] == second[at],
    ensures
        ({
            let sample = source.data@[y * source.format.stride@[0] + x];
            let old_gap = sample - first[y * stride + x];
            let new_gap = sample - second[y * stride + x];
            plane_error(source, second, stride, rows) - plane_error(source, first, stride, rows)
                == new_gap * new_gap - old_gap * old_gap
        }),
    decreases rows,
{
    let w = source.format.w as nat;
    let own = source.format.stride@[0] as int;
    let rest = (rows - 1) as nat;
    assert forall|px: int, py: int| 0 <= px < stride && py != y implies #[trigger] (py * stride + px) != y
        * stride + x by {
        assert(py * stride + px != y * stride + x) by (nonlinear_arith)
            requires
                py != y,
                0 <= px < stride,
                0 <= x < stride,
        ;
    }
    if y == rest {
        lemma_rows_agree(source, first, second, stride, rest, x, y);
        lemma_row_step(source.data@, rest * own, first, second, rest * stride, w, x);
    } else {
        law_error_counts_each_sample_once(source, first, second, stride, rest, x, y);
        assert forall|px: int| 0 <= px < w implies #[trigger] first[rest * stride + px] == second[rest * stride
            + px] by {
            assert(rest * stride + px != y * stride + x);
        }
        lemma_row_agrees(source.data@, rest * own, first, rest * stride, second, rest * stride, w);
    }
}

proof fn lemma_rows_agree(
    source: YuvBuffer,
    first: Seq<u8>,
    second: Seq<u8>,
    stride: int,
    rows: nat,
    x: int,
    y: int,
)
    requires
        source.format.w <= stride,
        0 <= x < source.format.w,
        rows <= y,
        forall|at: int| at != y * stride + x ==> #[trigger] first[at] == second[at],
    ensures
        plane_error(source, second, stride, rows) == plane_error(source, first, stride, rows),
    decreases rows,
{
    if rows > 0 {
        let rest = (rows - 1) as nat;
        let w = source.format.w as nat;
        let own = source.format.stride@[0] as int;
        lemma_rows_agree(source, first, second, stride, rest, x, y);
        assert forall|px: int| 0 <= px < w implies #[trigger] first[rest * stride + px] == second[rest * stride
            + px] by {
            assert(rest * stride + px != y * stride + x) by (nonlinear_arith)
                requires
                    rest < y,
                    0 <= px < stride,
                    0 <= x < stride,
            ;
        }
        lemma_row_agrees(source.data@, rest * own, first, rest * stride, second, rest * stride, w);
    }
}

// ---------------------------------------------------------------------------
// Layout
// ---------------------------------------------------------------------------

/// Planes can be laid out exactly if the frame has a size and one of the three
/// formats. The layout has room for every row of its planes and ends with one of
/// them. Chroma has half the rows, rounded up, but in I444; NV12 has one chroma
/// plane.
pub proof fn law_layout_holds_its_planes(format: EncodeYuvFormat, rows: int)
    requires
        format.stride@.len() >= 3 || (format.stride@.len() == 2 && format.pixfmt == PixelFormat::Nv12),
        format.pixfmt == PixelFormat::I444 ==> rows == format.h,
        format.pixfmt != PixelFormat::I444 ==> format.h <= 2 * rows <= format.h + 1,
        format.stride@[0] * format.h <= usize::MAX,
        format.u + format.stride@[1] * rows <= usize::MAX,
        format.pixfmt != PixelFormat::Nv12 ==> format.v + format.stride@[2] * rows <= usize::MAX,
    ensures
        ({
            let len = layout_len(format)->Ok_0;
            let planar = format.pixfmt != PixelFormat::Nv12;
            let luma = format.stride@[0] * format.h;
            let cb = format.u + format.stride@[1] * rows;
            let cr = format.v + format.stride@[2] * rows;
            &&& layout_len(format) is Ok <==> format.w > 0 && format.h > 0 && (format.pixfmt
                == PixelFormat::I420 || format.pixfmt == PixelFormat::I444 || format.pixfmt
                == PixelFormat::Nv12)
            &&& layout_len(format) is Ok ==> luma <= len && cb <= len && (planar ==> cr <= len) && (len == luma
                || len == cb || (planar && len == cr))
        }),
{
    assert(format.pixfmt != PixelFormat::I444 ==> rows == ceil_div(format.h as int, 2));
}

/// The low 32 bits of a number are the number itself within the range of `i32`,
/// and differ from it by a multiple of 2^32 elsewhere.
pub proof fn law_low_bits(value: int)
    ensures
        i32::MIN <= value <= i32::MAX ==> truncated32(value) == value,
        i32::MIN <= truncated32(value) <= i32::MAX,
        (value - truncated32(value)) % 0x1_0000_0000 == 0,
{
}

/// A BGRA frame can be converted exactly if it has four bytes for each pixel of
/// the layout, a row of it can be counted in 31 bits, as can the height, and the
/// format is one of the three.
pub proof fn law_conversion_is_possible(format: EncodeYuvFormat, len: nat)
    requires
        format.w * 4 <= usize::MAX,
        format.w * 4 * format.h <= usize::MAX,
    ensures
        conversion_fault(format, len) is None <==> {
            &&& len == format.w * 4 * format.h
            &&& format.w * 4 <= 0x7fff_ffff
            &&& format.h <= 0x7fff_ffff
            &&& format.pixfmt == PixelFormat::I420 || format.pixfmt == PixelFormat::I444 || format.pixfmt
                == PixelFormat::Nv12
        },
{
}

/// A decoded picture can be compared exactly if it has the size of the source, a
/// luma plane whose rows hold those of the source, and as many of them.
pub proof fn law_picture_can_be_compared(source: YuvBuffer, decoded: DecodedPicture)
    ensures
        picture_fault(source, decoded) is None <==> {
            &&& decoded.width == source.format.w
            &&& decoded.height == source.format.h
            &&& decoded.y.data is Some
            &&& decoded.y.stride > 0
            &&& decoded.y.stride >= source.format.w
            &&& decoded.y.stride * source.format.h <= decoded.y.data->0@.len()
        },
{
}

/// A hardware frame can be compared exactly if it has the size of the source and
/// a luma plane whose rows hold those of the source, and as many of them.
pub proof fn law_hardware_frame_can_be_compared(source: YuvBuffer, decoded: HwFrame)
    requires
        source.format.w <= i32::MAX,
        source.format.h <= i32::MAX,
    ensures
        hw_fault(source, decoded) is None <==> {
            &&& decoded.width == source.format.w
            &&& decoded.height == source.format.h
            &&& decoded.data@.len() > 0
            &&& decoded.linesize@.len() > 0
            &&& decoded.linesize@[0] > 0
            &&& decoded.linesize@[0] >= source.format.w
            &&& decoded.linesize@[0] * source.format.h <= decoded.data@[0]@.len()
        },
{
}

/// A decoded picture can be shown exactly if it has a size and all three planes
/// with a stride; a hardware frame needs two planes in one of the two formats,
/// three in the planar one.
pub proof fn law_decoded_frames_can_be_shown(picture: DecodedPicture, frame: HwFrame)
    requires
        picture.width * 4 <= usize::MAX,
        frame.width * 4 <= usize::MAX,
    ensures
        picture_image_fault(picture) is None <==> {
            &&& picture.width > 0 && picture.height > 0
            &&& picture.y.data is Some && picture.u.data is Some && picture.v.data is Some
            &&& picture.y.stride > 0 && picture.u.stride > 0 && picture.v.stride > 0
        },
        hw_image_fault(frame) is None <==> {
            &&& frame.width > 0 && frame.height > 0
            &&& frame.data@.len() >= 2 && frame.linesize@.len() >= 2
            &&& frame.linesize@[0] > 0 && frame.linesize@[1] > 0
            &&& frame.format == HwPixelFormat::Nv12 || (frame.format == HwPixelFormat::Yuv420p
                && frame.data@.len() >= 3)
        },
{
}

/// A frame can be written as a bitmap exactly if it has four bytes for each pixel
/// and its sides can be counted in 31 bits.
pub proof fn law_frame_can_be_written(len: nat, width: usize, height: usize)
    requires
        width * 4 * height + 54 <= usize::MAX,
        width * 4 <= usize::MAX,
    ensures
        bmp_fault(len, width, height) is None <==> len == width * 4 * height && width <= 0x7fff_ffff
            && height <= 0x7fff_ffff,
{
}

/// A hardware frame of three planes without a stride for the third one takes all
/// its red chroma from that plane's first row.
pub proof fn law_missing_stride_repeats_the_first_row(frame: HwFrame, x: int, y: int)
    requires
        hw_image_fault(frame) is None,
        frame.format == HwPixelFormat::Yuv420p,
        frame.linesize@.len() == 2 || (frame.linesize@.len() > 2 && frame.linesize@[2] <= 0),
        0 <= x < frame.width,
        0 <= y < frame.height,
    ensures
        hw_pixel(frame, x, y) == yuv_color(
            frame.data@[0]@[y * frame.linesize@[0] + x],
            frame.data@[1]@[y / 2 * frame.linesize@[1] + x / 2],
            frame.data@[2]@[x / 2],
        ),
{
    assert(y / 2 * 0 == 0);
}

} // verus!
