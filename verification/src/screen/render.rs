//! Deterministic screen content, drawn into tight BGRA buffers.
use vstd::prelude::*;
use vstd::string::*;

use crate::text::text_eq;

verus! {

/// The largest width and height of a frame.
pub const MAX_DIMENSION: usize = 16_384;

/// What a synthetic corpus shows.
#[derive(Clone, Copy, Debug, PartialEq, Eq, Structural)]
pub enum SyntheticScene {
    /// User interface and text; the picture beside them stands still.
    Screen,
    /// The picture moves.
    Mixed,
}

impl SyntheticScene {
    /// The scene's name.
    pub open spec fn name(self) -> Seq<char> {
        match self {
            SyntheticScene::Screen => "screen"@,
            SyntheticScene::Mixed => "mixed"@,
        }
    }

    /// The scene that a text names.
    pub open spec fn named(value: Seq<char>) -> Option<SyntheticScene> {
        if value == "screen"@ {
            Some(SyntheticScene::Screen)
        } else if value == "mixed"@ {
            Some(SyntheticScene::Mixed)
        } else {
            None
        }
    }

    pub fn parse(value: &str) -> (scene: Option<SyntheticScene>)
        ensures
            scene == SyntheticScene::named(value@),
    {
        if text_eq(value, "screen") {
            Some(SyntheticScene::Screen)
        } else if text_eq(value, "mixed") {
            Some(SyntheticScene::Mixed)
        } else {
            None
        }
    }

    pub fn label(self) -> (text: &'static str)
        ensures
            text@ == self.name(),
    {
        match self {
            SyntheticScene::Screen => "screen",
            SyntheticScene::Mixed => "mixed",
        }
    }
}

/// A scene's label parses to the scene.
pub proof fn law_scene_label_parses(scene: SyntheticScene)
    ensures
        SyntheticScene::named(scene.name()) == Some(scene),
{
    reveal_strlit("screen");
    reveal_strlit("mixed");
    assert("screen"@[0] == 's');
    assert("mixed"@[0] == 'm');
}

/// A pixel.
#[derive(Clone, Copy, Debug, PartialEq, Eq, Structural)]
pub struct Bgra {
    pub b: u8,
    pub g: u8,
    pub r: u8,
    pub a: u8,
}

/// Where the pixel at column `x` of row `y` starts.
pub open spec fn pixel_offset(width: int, x: int, y: int) -> int {
    (y * width + x) * 4
}

/// The pixel at column `x` of row `y`.
pub open spec fn pixel(data: Seq<u8>, width: int, x: int, y: int) -> Bgra {
    let at = pixel_offset(width, x, y);
    Bgra { b: data[at], g: data[at + 1], r: data[at + 2], a: data[at + 3] }
}

/// Whether a buffer holds a frame of the given size.
pub open spec fn is_frame(data: Seq<u8>, width: int, height: int) -> bool {
    data.len() == pixel_offset(width, 0, height)
}

pub proof fn lemma_pixel_inside(width: int, height: int, x: int, y: int)
    requires
        0 <= x < width,
        0 <= y < height,
    ensures
        0 <= pixel_offset(width, x, y),
        pixel_offset(width, x, y) + 4 <= pixel_offset(width, 0, height),
{
    assert(0 <= y * width) by (nonlinear_arith)
        requires
            0 <= y,
            0 < width,
    ;
    assert(y * width + width <= height * width) by (nonlinear_arith)
        requires
            y + 1 <= height,
            0 < width,
    ;
}

pub proof fn lemma_pixels_distinct(width: int, x: int, y: int, other_x: int, other_y: int)
    requires
        0 <= x < width,
        0 <= other_x < width,
        x != other_x || y != other_y,
    ensures
        pixel_offset(width, x, y) + 4 <= pixel_offset(width, other_x, other_y) || pixel_offset(
            width,
            other_x,
            other_y,
        ) + 4 <= pixel_offset(width, x, y),
{
    if y < other_y {
        assert(y * width + width <= other_y * width) by (nonlinear_arith)
            requires
                y + 1 <= other_y,
                0 < width,
        ;
    } else if other_y < y {
        assert(other_y * width + width <= y * width) by (nonlinear_arith)
            requires
                other_y + 1 <= y,
                0 < width,
        ;
    }
}

/// Two frames of one size with the same pixels are the same.
pub proof fn lemma_same_pixels(left: Seq<u8>, right: Seq<u8>, width: int, height: int)
    requires
        0 < width,
        0 <= height,
        is_frame(left, width, height),
        is_frame(right, width, height),
        forall|x: int, y: int|
            0 <= x < width && 0 <= y < height ==> #[trigger] pixel(left, width, x, y) == pixel(
                right,
                width,
                x,
                y,
            ),
    ensures
        left == right,
{
    assert forall|i: int| 0 <= i < left.len() implies left[i] == right[i] by {
        let index = i / 4;
        let y = index / width;
        let x = index % width;
        vstd::arithmetic::div_mod::lemma_fundamental_div_mod(index, width);
        assert(index < height * width);
        assert(0 <= y < height) by (nonlinear_arith)
            requires
                index == width * y + x,
                0 <= x < width,
                0 <= index < height * width,
        ;
        assert(width * y == y * width) by (nonlinear_arith);
        assert(pixel_offset(width, x, y) == index * 4);
        assert(pixel(left, width, x, y) == pixel(right, width, x, y));
    }
    assert(left =~= right);
}

/// Sets one pixel; nothing happens outside the frame.
fn put_pixel(bgra: &mut [u8], width: usize, height: usize, x: usize, y: usize, color: Bgra)
    requires
        is_frame(old(bgra)@, width as int, height as int),
    ensures
        is_frame(final(bgra)@, width as int, height as int),
        forall|px: int, py: int|
            0 <= px < width && 0 <= py < height ==> #[trigger] pixel(final(bgra)@, width as int, px, py)
                == if px == x && py == y {
                color
            } else {
                pixel(old(bgra)@, width as int, px, py)
            },
{
    if x < width && y < height {
        proof {
            lemma_pixel_inside(width as int, height as int, x as int, y as int);
            lemma_pixel_steps(width as int, height as int, x as int, y as int);
        }
        assert(pixel_offset(width as int, 0, height as int) == bgra.len());
        let offset: usize = (y * width + x) * 4;
        bgra[offset] = color.b;
        bgra[offset + 1] = color.g;
        bgra[offset + 2] = color.r;
        bgra[offset + 3] = color.a;
        assert forall|px: int, py: int| 0 <= px < width && 0 <= py < height implies #[trigger] pixel(
            bgra@,
            width as int,
            px,
            py,
        ) == if px == x && py == y {
            color
        } else {
            pixel(old(bgra)@, width as int, px, py)
        } by {
            lemma_pixel_inside(width as int, height as int, px, py);
            if px != x || py != y {
                lemma_pixels_distinct(width as int, x as int, y as int, px, py);
            }
        }
    }
}

/// The parts of a pixel's offset stay below the frame's length.
proof fn lemma_pixel_steps(width: int, height: int, x: int, y: int)
    requires
        0 <= x < width,
        0 <= y < height,
    ensures
        0 <= y * width <= y * width + x,
        (y * width + x) * 4 + 4 <= pixel_offset(width, 0, height),
{
    lemma_pixel_inside(width, height, x, y);
    assert(0 <= y * width) by (nonlinear_arith)
        requires
            0 <= y,
            0 < width,
    ;
}

/// Whether a place lies in a rectangle.
pub open spec fn in_rect(x: int, y: int, left: int, top: int, width: int, height: int) -> bool {
    left <= x < left + width && top <= y < top + height
}

/// Fills a rectangle, as far as it lies in the frame.
fn fill_rect(
    bgra: &mut [u8],
    width: usize,
    height: usize,
    x: usize,
    y: usize,
    rect_width: usize,
    rect_height: usize,
    color: Bgra,
)
    requires
        is_frame(old(bgra)@, width as int, height as int),
    ensures
        is_frame(final(bgra)@, width as int, height as int),
        forall|px: int, py: int|
            0 <= px < width && 0 <= py < height ==> #[trigger] pixel(final(bgra)@, width as int, px, py)
                == if in_rect(px, py, x as int, y as int, rect_width as int, rect_height as int) {
                color
            } else {
                pixel(old(bgra)@, width as int, px, py)
            },
{
    let right_end: usize = x.saturating_add(rect_width);
    let right: usize = if right_end < width { right_end } else { width };
    let bottom_end: usize = y.saturating_add(rect_height);
    let bottom: usize = if bottom_end < height { bottom_end } else { height };
    let first_row: usize = if y < height { y } else { height };
    let first_column: usize = if x < width { x } else { width };
    let ghost before = bgra@;
    let mut row: usize = first_row;
    while row < bottom
        invariant
            first_row <= row,
            first_row <= bottom ==> row <= bottom,
            bottom <= height,
            right <= width,
            first_row == if y < height { y } else { height },
            first_column == if x < width { x } else { width },
            right == if x + rect_width < width { x + rect_width } else { width as int },
            bottom == if y + rect_height < height { y + rect_height } else { height as int },
            is_frame(bgra@, width as int, height as int),
            forall|px: int, py: int|
                0 <= px < width && 0 <= py < height ==> #[trigger] pixel(bgra@, width as int, px, py)
                    == if py < row && in_rect(
                    px,
                    py,
                    x as int,
                    y as int,
                    rect_width as int,
                    rect_height as int,
                ) {
                    color
                } else {
                    pixel(before, width as int, px, py)
                },
        decreases bottom - row,
    {
        let mut column: usize = first_column;
        while column < right
            invariant
                first_row <= row < bottom,
                first_column <= column,
                first_column <= right ==> column <= right,
                bottom <= height,
                right <= width,
                first_row == if y < height { y } else { height },
                first_column == if x < width { x } else { width },
                right == if x + rect_width < width { x + rect_width } else { width as int },
                bottom == if y + rect_height < height { y + rect_height } else { height as int },
                is_frame(bgra@, width as int, height as int),
                forall|px: int, py: int|
                    0 <= px < width && 0 <= py < height ==> #[trigger] pixel(
                        bgra@,
                        width as int,
                        px,
                        py,
                    ) == if (py < row || (py == row && px < column)) && in_rect(
                        px,
                        py,
                        x as int,
                        y as int,
                        rect_width as int,
                        rect_height as int,
                    ) {
                        color
                    } else {
                        pixel(before, width as int, px, py)
                    },
            decreases right - column,
        {
            put_pixel(bgra, width, height, column, row, color);
            column += 1;
        }
        row += 1;
    }
}

// ---------------------------------------------------------------------------
// Text
// ---------------------------------------------------------------------------

/// A value rotated left by fewer than 32 bits.
pub open spec fn rotated_left(value: u32, bits: u32) -> u32 {
    if bits == 0 {
        value
    } else {
        (value << bits) | (value >> ((32 - bits) as u32))
    }
}

/// The bit pattern of a glyph.
pub open spec fn glyph_bits(seed: int, glyph: int) -> u32 {
    ((seed * 0x9e37_79b9 + glyph * 0x85eb_ca6b) % 0x1_0000_0000) as u32
}

/// The pattern of one row of a glyph.
pub open spec fn glyph_row(seed: int, glyph: int, row: int) -> u32 {
    rotated_left(glyph_bits(seed, glyph), (row * 5) as u32) ^ (0x15u32 << ((row % 3) as u32))
}

/// Whether a dot of a glyph is set.
pub open spec fn glyph_dot(seed: int, glyph: int, row: int, column: int) -> bool {
    (glyph_row(seed, glyph, row) >> (column as u32)) & 1 != 0
}

/// Whether a line of text covers the place: glyphs of five by seven dots, seven
/// dots apart; a line that does not fit with two rows to spare is left out.
pub open spec fn line_covers(
    x: int,
    y: int,
    left: int,
    top: int,
    max_width: int,
    seed: int,
    height: int,
) -> bool {
    &&& top + 9 < height
    &&& left <= x
    &&& (x - left) / 7 < max_width / 7
    &&& (x - left) % 7 < 5
    &&& top <= y < top + 7
    &&& glyph_dot(seed, (x - left) / 7, y - top, (x - left) % 7)
}

fn rotate_left(value: u32, bits: u32) -> (rotated: u32)
    requires
        bits < 32,
    ensures
        rotated == rotated_left(value, bits),
{
    if bits == 0 {
        value
    } else {
        (value << bits) | (value >> (32 - bits))
    }
}

fn bits_of_glyph(seed: u32, glyph: u32) -> (bits: u32)
    ensures
        bits == glyph_bits(seed as int, glyph as int),
{
    let wide: u64 = (seed as u64 * 0x9e37_79b9) % 0x1_0000_0000 + (glyph as u64 * 0x85eb_ca6b)
        % 0x1_0000_0000;
    proof {
        vstd::arithmetic::div_mod::lemma_add_mod_noop(
            seed * 0x9e37_79b9,
            glyph * 0x85eb_ca6b,
            0x1_0000_0000,
        );
    }
    (wide % 0x1_0000_0000) as u32
}

fn draw_pseudo_text_line(
    bgra: &mut [u8],
    width: usize,
    height: usize,
    x: usize,
    y: usize,
    max_width: usize,
    seed: u32,
    color: Bgra,
)
    requires
        is_frame(old(bgra)@, width as int, height as int),
        x + max_width <= u32::MAX,
        y + 9 <= u32::MAX,
    ensures
        is_frame(final(bgra)@, width as int, height as int),
        forall|px: int, py: int|
            0 <= px < width && 0 <= py < height ==> #[trigger] pixel(final(bgra)@, width as int, px, py)
                == if line_covers(
                px,
                py,
                x as int,
                y as int,
                max_width as int,
                seed as int,
                height as int,
            ) {
                color
            } else {
                pixel(old(bgra)@, width as int, px, py)
            },
{
    if y + 9 >= height {
        return;
    }
    let glyphs: usize = max_width / 7;
    let ghost before = bgra@;
    let ghost covers = |px: int, py: int|
        line_covers(px, py, x as int, y as int, max_width as int, seed as int, height as int);
    let mut glyph: usize = 0;
    while glyph < glyphs
        invariant
            glyph <= glyphs,
            glyphs == max_width / 7,
            x + max_width <= u32::MAX,
            y + 9 < height,
            y + 9 <= u32::MAX,
            is_frame(bgra@, width as int, height as int),
            covers == (|px: int, py: int|
                line_covers(px, py, x as int, y as int, max_width as int, seed as int, height as int)),
            forall|px: int, py: int|
                0 <= px < width && 0 <= py < height ==> #[trigger] pixel(bgra@, width as int, px, py)
                    == if (px - x) / 7 < glyph && covers(px, py) {
                    color
                } else {
                    pixel(before, width as int, px, py)
                },
        decreases glyphs - glyph,
    {
        let bits: u32 = bits_of_glyph(seed, glyph as u32);
        let mut row: usize = 0;
        while row < 7
            invariant
                row <= 7,
                glyph < glyphs,
                glyphs == max_width / 7,
                x + max_width <= u32::MAX,
                y + 9 < height,
                y + 9 <= u32::MAX,
                bits == glyph_bits(seed as int, glyph as int),
                is_frame(bgra@, width as int, height as int),
                covers == (|px: int, py: int|
                    line_covers(
                        px,
                        py,
                        x as int,
                        y as int,
                        max_width as int,
                        seed as int,
                        height as int,
                    )),
                forall|px: int, py: int|
                    0 <= px < width && 0 <= py < height ==> #[trigger] pixel(
                        bgra@,
                        width as int,
                        px,
                        py,
                    ) == if ((px - x) / 7 < glyph || ((px - x) / 7 == glyph && py - y < row)) && covers(
                        px,
                        py,
                    ) {
                        color
                    } else {
                        pixel(before, width as int, px, py)
                    },
            decreases 7 - row,
        {
            let row_bits: u32 = rotate_left(bits, (row * 5) as u32) ^ (0x15u32 << ((row % 3) as u32));
            let mut col: usize = 0;
            while col < 5
                invariant
                    col <= 5,
                    row < 7,
                    glyph < glyphs,
                    glyphs == max_width / 7,
                    x + max_width <= u32::MAX,
                    y + 9 < height,
                    y + 9 <= u32::MAX,
                    row_bits == glyph_row(seed as int, glyph as int, row as int),
                    is_frame(bgra@, width as int, height as int),
                    covers == (|px: int, py: int|
                        line_covers(
                            px,
                            py,
                            x as int,
                            y as int,
                            max_width as int,
                            seed as int,
                            height as int,
                        )),
                    forall|px: int, py: int|
                        0 <= px < width && 0 <= py < height ==> #[trigger] pixel(
                            bgra@,
                            width as int,
                            px,
                            py,
                        ) == if ((px - x) / 7 < glyph || ((px - x) / 7 == glyph && (py - y < row || (py - y
                            == row && (px - x) % 7 < col)))) && covers(px, py) {
                            color
                        } else {
                            pixel(before, width as int, px, py)
                        },
                decreases 5 - col,
            {
                let column: usize = x + glyph * 7 + col;
                let line: usize = y + row;
                proof {
                    assert((column - x) / 7 == glyph);
                    assert((column - x) % 7 == col as int);
                }
                if (row_bits >> (col as u32)) & 1 != 0 {
                    put_pixel(bgra, width, height, column, line, color);
                }
                col += 1;
            }
            row += 1;
        }
        glyph += 1;
    }
}

// ---------------------------------------------------------------------------
// The scene
// ---------------------------------------------------------------------------

/// The lowest eight bits of a number.
pub open spec fn low_byte(value: int) -> u8 {
    (value % 256) as u8
}

/// An opaque pixel.
pub open spec fn opaque(b: u8, g: u8, r: u8) -> Bgra {
    Bgra { b, g, r, a: 255 }
}

/// The desktop behind everything: two panels with gradients.
pub open spec fn backdrop(width: int, height: int, x: int, y: int) -> Bgra {
    let panel: int = if x < width * 2 / 3 { 28 } else { 44 };
    opaque(
        (panel + y * 18 / height) as u8,
        (panel + x * 22 / width) as u8,
        (panel + 12) as u8,
    )
}

/// The desktop with the title bar, its tab and the side bar.
pub open spec fn chrome(width: int, height: int, x: int, y: int) -> Bgra {
    if in_rect(x, y, 0, 42, width / 6, height - 42) {
        opaque(42, 48, 54)
    } else if in_rect(x, y, 12, 9, width / 4, 25) {
        opaque(82, 88, 96)
    } else if in_rect(x, y, 0, 0, width, 42) {
        opaque(36, 38, 42)
    } else {
        backdrop(width, height, x, y)
    }
}

/// How far the text has scrolled.
pub open spec fn scroll_at(frame: int, frame_count: int) -> int {
    if frame < frame_count / 3 {
        0
    } else {
        (frame * 3) % 18
    }
}

/// The left edge of the text.
pub open spec fn content_left(width: int) -> int {
    width / 6 + 18
}

/// The width of the text.
pub open spec fn content_width(width: int) -> int {
    width * 47 / 100
}

/// The number of text lines.
pub open spec fn line_count(height: int) -> int {
    if height < 70 {
        0
    } else {
        (height - 70) / 18
    }
}

/// The colour of a text line.
pub open spec fn line_color(line: int) -> Bgra {
    let tone = 116 + line * 17 % 90;
    opaque(tone as u8, (tone + 8) as u8, (tone + 18) as u8)
}

/// Whether text line `line` covers the place.
pub open spec fn text_line_covers(
    width: int,
    height: int,
    scroll: int,
    line: int,
    x: int,
    y: int,
) -> bool {
    line_covers(
        x,
        y,
        content_left(width),
        58 + line * 18 - scroll,
        content_width(width),
        line,
        height,
    )
}

/// The text line whose rows the place lies in.
pub open spec fn text_line_at(scroll: int, y: int) -> int {
    (y + scroll - 58) / 18
}

/// The desktop with the text.
pub open spec fn with_text(width: int, height: int, scroll: int, x: int, y: int) -> Bgra {
    let line = text_line_at(scroll, y);
    if 0 <= line < line_count(height) && text_line_covers(width, height, scroll, line, x, y) {
        line_color(line)
    } else {
        chrome(width, height, x, y)
    }
}

/// The left edge of the picture.
pub open spec fn video_left(width: int) -> int {
    width * 69 / 100
}

/// The width of the picture, zero where there is no room for it.
pub open spec fn video_width(width: int) -> int {
    let rest = width - video_left(width) - 18;
    if rest < 0 {
        0
    } else {
        rest
    }
}

/// The height of the picture, zero where there is no room for it.
pub open spec fn video_height(height: int) -> int {
    if height < 94 {
        0
    } else {
        height - 94
    }
}

/// A pixel of the picture, by its place in it, at a step of its motion.
pub open spec fn video_pixel(width: int, height: int, step: int, x: int, y: int) -> Bgra {
    let motion = low_byte(x + step * 5) ^ low_byte(y + step * 3);
    opaque(
        low_byte(motion + x * 255 / video_width(width)),
        low_byte((y + step * 2) * 255 / video_height(height)),
        low_byte(((motion << 2) | (motion >> 6)) + 48),
    )
}

/// The desktop with the picture.
pub open spec fn with_video(
    width: int,
    height: int,
    scroll: int,
    step: int,
    x: int,
    y: int,
) -> Bgra {
    if in_rect(x, y, video_left(width), 70, video_width(width), video_height(height)) {
        video_pixel(width, height, step, x - video_left(width), y - 70)
    } else {
        with_text(width, height, scroll, x, y)
    }
}

/// The width of the moving box.
pub open spec fn box_width(width: int) -> int {
    if width / 8 < 24 {
        24
    } else {
        width / 8
    }
}

/// How far the box moves.
pub open spec fn box_travel(width: int) -> int {
    let room = content_width(width) - box_width(width);
    if room < 1 {
        1
    } else {
        room
    }
}

/// The left edge of the moving box.
pub open spec fn box_left(width: int, frame: int) -> int {
    content_left(width) + (frame * 7) % box_travel(width)
}

/// Where the caret starts.
pub open spec fn caret_top(height: int) -> int {
    if height < 42 {
        0
    } else {
        height - 42
    }
}

/// A pixel of a synthetic frame.
pub open spec fn synthetic_pixel(
    width: int,
    height: int,
    frame: int,
    frame_count: int,
    scene: SyntheticScene,
    x: int,
    y: int,
) -> Bgra {
    let step = if scene == SyntheticScene::Mixed { frame } else { 0 };
    if frame % 30 < 15 && in_rect(x, y, content_left(width) + 8, caret_top(height), 3, 18) {
        opaque(230, 230, 230)
    } else if in_rect(x, y, box_left(width, frame), height * 3 / 5, box_width(width), 34) {
        opaque(42, 128, 228)
    } else {
        with_video(width, height, scroll_at(frame, frame_count), step, x, y)
    }
}

fn draw_backdrop(bgra: &mut [u8], width: usize, height: usize)
    requires
        is_frame(old(bgra)@, width as int, height as int),
        0 < width <= MAX_DIMENSION,
        0 < height <= MAX_DIMENSION,
    ensures
        is_frame(final(bgra)@, width as int, height as int),
        forall|px: int, py: int|
            0 <= px < width && 0 <= py < height ==> #[trigger] pixel(final(bgra)@, width as int, px, py)
                == backdrop(width as int, height as int, px, py),
{
    let mut y: usize = 0;
    while y < height
        invariant
            y <= height,
            0 < width <= MAX_DIMENSION,
            0 < height <= MAX_DIMENSION,
            is_frame(bgra@, width as int, height as int),
            forall|px: int, py: int|
                0 <= px < width && 0 <= py < y ==> #[trigger] pixel(bgra@, width as int, px, py)
                    == backdrop(width as int, height as int, px, py),
        decreases height - y,
    {
        let mut x: usize = 0;
        while x < width
            invariant
                x <= width,
                y < height,
                0 < width <= MAX_DIMENSION,
                0 < height <= MAX_DIMENSION,
                is_frame(bgra@, width as int, height as int),
                forall|px: int, py: int|
                    0 <= px < width && 0 <= py < height && (py < y || (py == y && px < x)) ==> #[trigger] pixel(
                        bgra@,
                        width as int,
                        px,
                        py,
                    ) == backdrop(width as int, height as int, px, py),
            decreases width - x,
        {
            let panel: usize = if x < width * 2 / 3 { 28 } else { 44 };
            let down: usize = y * 18 / height;
            let across: usize = x * 22 / width;
            proof {
                lemma_share(y as int, 18, height as int);
                lemma_share(x as int, 22, width as int);
            }
            let color = Bgra {
                b: (panel + down) as u8,
                g: (panel + across) as u8,
                r: (panel + 12) as u8,
                a: 255,
            };
            put_pixel(bgra, width, height, x, y, color);
            x += 1;
        }
        y += 1;
    }
}

/// A share of a whole is smaller than the whole.
proof fn lemma_share(part: int, scale: int, whole: int)
    requires
        0 <= part < whole,
        0 < scale,
    ensures
        0 <= part * scale / whole < scale,
        0 <= part * scale,
{
    let product = part * scale;
    assert(0 <= product < scale * whole) by (nonlinear_arith)
        requires
            product == part * scale,
            0 <= part < whole,
            0 < scale,
    ;
    vstd::arithmetic::div_mod::lemma_fundamental_div_mod(product, whole);
    let share = product / whole;
    assert(0 <= share < scale) by (nonlinear_arith)
        requires
            product == whole * share + product % whole,
            0 <= product % whole < whole,
            0 <= product < scale * whole,
            0 < whole,
    ;
}

fn draw_chrome(bgra: &mut [u8], width: usize, height: usize)
    requires
        is_frame(old(bgra)@, width as int, height as int),
        0 < width <= MAX_DIMENSION,
        0 < height <= MAX_DIMENSION,
    ensures
        is_frame(final(bgra)@, width as int, height as int),
        forall|px: int, py: int|
            0 <= px < width && 0 <= py < height ==> #[trigger] pixel(final(bgra)@, width as int, px, py)
                == chrome(width as int, height as int, px, py),
{
    draw_backdrop(bgra, width, height);
    fill_rect(bgra, width, height, 0, 0, width, 42, Bgra { b: 36, g: 38, r: 42, a: 255 });
    fill_rect(bgra, width, height, 12, 9, width / 4, 25, Bgra { b: 82, g: 88, r: 96, a: 255 });
    fill_rect(
        bgra,
        width,
        height,
        0,
        42,
        width / 6,
        height.saturating_sub(42),
        Bgra { b: 42, g: 48, r: 54, a: 255 },
    );
}

fn draw_text(bgra: &mut [u8], width: usize, height: usize, scroll: usize)
    requires
        is_frame(old(bgra)@, width as int, height as int),
        0 < width <= MAX_DIMENSION,
        0 < height <= MAX_DIMENSION,
        scroll < 18,
        forall|px: int, py: int|
            0 <= px < width && 0 <= py < height ==> #[trigger] pixel(old(bgra)@, width as int, px, py)
                == chrome(width as int, height as int, px, py),
    ensures
        is_frame(final(bgra)@, width as int, height as int),
        forall|px: int, py: int|
            0 <= px < width && 0 <= py < height ==> #[trigger] pixel(final(bgra)@, width as int, px, py)
                == with_text(width as int, height as int, scroll as int, px, py),
{
    let content_x: usize = width / 6 + 18;
    let content_w: usize = width * 47 / 100;
    let lines: usize = height.saturating_sub(70) / 18;
    let ghost before = bgra@;
    let mut line: usize = 0;
    while line < lines
        invariant
            line <= lines,
            lines == line_count(height as int),
            content_x == content_left(width as int),
            content_w == content_width(width as int),
            0 < width <= MAX_DIMENSION,
            0 < height <= MAX_DIMENSION,
            scroll < 18,
            is_frame(bgra@, width as int, height as int),
            forall|px: int, py: int|
                0 <= px < width && 0 <= py < height ==> #[trigger] pixel(bgra@, width as int, px, py)
                    == if 0 <= text_line_at(scroll as int, py) < line && text_line_covers(
                    width as int,
                    height as int,
                    scroll as int,
                    text_line_at(scroll as int, py),
                    px,
                    py,
                ) {
                    line_color(text_line_at(scroll as int, py))
                } else {
                    chrome(width as int, height as int, px, py)
                },
        decreases lines - line,
    {
        let y: usize = 58 + line * 18;
        let shifted: usize = y.saturating_sub(scroll);
        let tone: u8 = 116 + (line * 17 % 90) as u8;
        let color = Bgra { b: tone, g: tone.saturating_add(8), r: tone.saturating_add(18), a: 255 };
        assert(color == line_color(line as int));
        let ghost drawn = bgra@;
        draw_pseudo_text_line(bgra, width, height, content_x, shifted, content_w, line as u32, color);
        proof {
            assert forall|px: int, py: int| 0 <= px < width && 0 <= py < height implies #[trigger] pixel(
                bgra@,
                width as int,
                px,
                py,
            ) == if 0 <= text_line_at(scroll as int, py) < line + 1 && text_line_covers(
                width as int,
                height as int,
                scroll as int,
                text_line_at(scroll as int, py),
                px,
                py,
            ) {
                line_color(text_line_at(scroll as int, py))
            } else {
                chrome(width as int, height as int, px, py)
            } by {
                let covered = text_line_covers(
                    width as int,
                    height as int,
                    scroll as int,
                    line as int,
                    px,
                    py,
                );
                assert(pixel(bgra@, width as int, px, py) == if covered {
                    color
                } else {
                    pixel(drawn, width as int, px, py)
                });
                if covered {
                    assert(text_line_at(scroll as int, py) == line as int);
                }
            }
        }
        line += 1;
    }
}

fn draw_video(bgra: &mut [u8], width: usize, height: usize, Ghost(scroll): Ghost<int>, step: usize)
    requires
        is_frame(old(bgra)@, width as int, height as int),
        0 < width <= MAX_DIMENSION,
        0 < height <= MAX_DIMENSION,
        forall|px: int, py: int|
            0 <= px < width && 0 <= py < height ==> #[trigger] pixel(old(bgra)@, width as int, px, py)
                == with_text(width as int, height as int, scroll, px, py),
    ensures
        is_frame(final(bgra)@, width as int, height as int),
        forall|px: int, py: int|
            0 <= px < width && 0 <= py < height ==> #[trigger] pixel(final(bgra)@, width as int, px, py)
                == with_video(width as int, height as int, scroll, step as int, px, py),
{
    let left: usize = width * 69 / 100;
    let video_w: usize = width.saturating_sub(left + 18);
    let video_h: usize = height.saturating_sub(94);
    let ghost before = bgra@;
    let mut y: usize = 0;
    while y < video_h
        invariant
            y <= video_h,
            left == video_left(width as int),
            video_w == video_width(width as int),
            video_h == video_height(height as int),
            0 < width <= MAX_DIMENSION,
            0 < height <= MAX_DIMENSION,
            is_frame(bgra@, width as int, height as int),
            forall|px: int, py: int|
                0 <= px < width && 0 <= py < height ==> #[trigger] pixel(bgra@, width as int, px, py)
                    == if py - 70 < y && in_rect(
                    px,
                    py,
                    left as int,
                    70,
                    video_w as int,
                    video_h as int,
                ) {
                    video_pixel(width as int, height as int, step as int, px - left, py - 70)
                } else {
                    with_text(width as int, height as int, scroll, px, py)
                },
        decreases video_h - y,
    {
        let mut x: usize = 0;
        while x < video_w
            invariant
                x <= video_w,
                y < video_h,
                left == video_left(width as int),
                video_w == video_width(width as int),
                video_h == video_height(height as int),
                0 < width <= MAX_DIMENSION,
                0 < height <= MAX_DIMENSION,
                is_frame(bgra@, width as int, height as int),
                forall|px: int, py: int|
                    0 <= px < width && 0 <= py < height ==> #[trigger] pixel(
                        bgra@,
                        width as int,
                        px,
                        py,
                    ) == if (py - 70 < y || (py - 70 == y && px - left < x)) && in_rect(
                        px,
                        py,
                        left as int,
                        70,
                        video_w as int,
                        video_h as int,
                    ) {
                        video_pixel(width as int, height as int, step as int, px - left, py - 70)
                    } else {
                        with_text(width as int, height as int, scroll, px, py)
                    },
            decreases video_w - x,
        {
            let wide_step: u128 = step as u128;
            let motion: u8 = ((x as u128 + wide_step * 5) % 256) as u8 ^ ((y as u128 + wide_step * 3)
                % 256) as u8;
            proof {
                lemma_share(x as int, 255, video_w as int);
            }
            let across: usize = x * 255 / video_w;
            let down: u128 = (y as u128 + wide_step * 2) * 255 / video_h as u128;
            let turned: u8 = (motion << 2) | (motion >> 6);
            let color = Bgra {
                b: ((motion as usize + across) % 256) as u8,
                g: (down % 256) as u8,
                r: ((turned as usize + 48) % 256) as u8,
                a: 255,
            };
            assert(color == video_pixel(width as int, height as int, step as int, x as int, y as int));
            put_pixel(bgra, width, height, left + x, 70 + y, color);
            x += 1;
        }
        y += 1;
    }
}

/// Draws a frame of a synthetic corpus.
pub fn render_synthetic_frame(
    bgra: &mut [u8],
    width: usize,
    height: usize,
    frame: usize,
    frame_count: usize,
    scene: SyntheticScene,
)
    requires
        is_frame(old(bgra)@, width as int, height as int),
        0 < width <= MAX_DIMENSION,
        0 < height <= MAX_DIMENSION,
    ensures
        is_frame(final(bgra)@, width as int, height as int),
        forall|x: int, y: int|
            0 <= x < width && 0 <= y < height ==> #[trigger] pixel(final(bgra)@, width as int, x, y)
                == synthetic_pixel(
                width as int,
                height as int,
                frame as int,
                frame_count as int,
                scene,
                x,
                y,
            ),
{
    draw_chrome(bgra, width, height);
    let scroll: usize = if frame < frame_count / 3 { 0 } else { (frame % 18 * 3) % 18 };
    assert((frame % 18 * 3) % 18 == (frame * 3) % 18);
    draw_text(bgra, width, height, scroll);
    let step: usize = if scene == SyntheticScene::Mixed { frame } else { 0 };
    draw_video(bgra, width, height, Ghost(scroll as int), step);

    let content_x: usize = width / 6 + 18;
    let content_w: usize = width * 47 / 100;
    let wide: usize = if width / 8 < 24 { 24 } else { width / 8 };
    let room: usize = content_w.saturating_sub(wide);
    let travel: usize = if room < 1 { 1 } else { room };
    let moving_x: usize = content_x + (frame as u128 * 7 % travel as u128) as usize;
    let moving_y: usize = height * 3 / 5;
    fill_rect(
        bgra,
        width,
        height,
        moving_x,
        moving_y,
        wide,
        34,
        Bgra { b: 42, g: 128, r: 228, a: 255 },
    );
    if frame % 30 < 15 {
        fill_rect(
            bgra,
            width,
            height,
            content_x + 8,
            height.saturating_sub(42),
            3,
            18,
            Bgra { b: 230, g: 230, r: 230, a: 255 },
        );
    }
}

/// Frames are deterministic: whatever the buffers held before, drawing a frame
/// twice gives the same bytes.
pub proof fn law_rendering_is_deterministic(
    left: Seq<u8>,
    right: Seq<u8>,
    width: int,
    height: int,
    frame: int,
    frame_count: int,
    scene: SyntheticScene,
)
    requires
        0 < width,
        0 < height,
        is_frame(left, width, height),
        is_frame(right, width, height),
        forall|x: int, y: int|
            0 <= x < width && 0 <= y < height ==> #[trigger] pixel(left, width, x, y)
                == synthetic_pixel(width, height, frame, frame_count, scene, x, y),
        forall|x: int, y: int|
            0 <= x < width && 0 <= y < height ==> #[trigger] pixel(right, width, x, y)
                == synthetic_pixel(width, height, frame, frame_count, scene, x, y),
    ensures
        left == right,
{
    lemma_same_pixels(left, right, width, height);
}

/// In the screen scene the picture stands still: only the text, the box and the
/// caret differ between frames.
pub proof fn law_screen_picture_stands_still(
    width: int,
    height: int,
    first: int,
    second: int,
    frame_count: int,
    x: int,
    y: int,
)
    requires
        0 <= first,
        0 <= second,
        in_rect(x, y, video_left(width), 70, video_width(width), video_height(height)),
        !in_rect(x, y, box_left(width, first), height * 3 / 5, box_width(width), 34),
        !in_rect(x, y, box_left(width, second), height * 3 / 5, box_width(width), 34),
        !in_rect(x, y, content_left(width) + 8, caret_top(height), 3, 18),
    ensures
        synthetic_pixel(width, height, first, frame_count, SyntheticScene::Screen, x, y)
            == synthetic_pixel(width, height, second, frame_count, SyntheticScene::Screen, x, y),
{
}

/// Every pixel of a synthetic frame is opaque.
pub proof fn law_frames_are_opaque(
    width: int,
    height: int,
    frame: int,
    frame_count: int,
    scene: SyntheticScene,
    x: int,
    y: int,
)
    ensures
        synthetic_pixel(width, height, frame, frame_count, scene, x, y).a == 255,
{
}

} // verus!
