//! What a synthetic frame shows, and where.
use vstd::prelude::*;

use crate::screen::render::{
    box_left, box_width, caret_top, content_left, glyph_bits, glyph_dot, in_rect, is_frame,
    lemma_pixel_inside, line_count, pixel, synthetic_pixel, text_line_at, text_line_covers, Bgra,
    SyntheticScene,
};

verus! {

/// A frame has four bytes for each pixel, blue, green, red and alpha, row after
/// row without a gap.
pub proof fn law_pixel_bytes(data: Seq<u8>, width: int, height: int, x: int, y: int)
    requires
        0 <= x < width,
        0 <= y < height,
        is_frame(data, width, height),
    ensures
        data.len() == 4 * (width * height),
        0 <= 4 * (width * y + x) && 4 * (width * y + x) + 4 <= data.len(),
        ({
            let at = 4 * (width * y + x);
            let seen = pixel(data, width, x, y);
            seen.b == data[at] && seen.g == data[at + 1] && seen.r == data[at + 2] && seen.a == data[at + 3]
        }),
{
    assert(y * width == width * y && height * width == width * height) by (nonlinear_arith);
    lemma_pixel_inside(width, height, x, y);
}

// ---------------------------------------------------------------------------
// Layers
// ---------------------------------------------------------------------------

/// Whether the moving box covers a place: 34 rows from three fifths of the
/// height on, `wide` columns, `moved` columns to the right of the text's edge.
pub open spec fn box_covers(width: int, height: int, wide: int, moved: int, x: int, y: int) -> bool {
    let left = width / 6 + 18 + moved;
    left <= x < left + wide && height * 3 / 5 <= y < height * 3 / 5 + 34
}

/// Whether the caret may cover a place: three columns by 18 rows, 42 rows above
/// the lower edge and eight columns into the text.
pub open spec fn caret_covers(width: int, height: int, x: int, y: int) -> bool {
    let top = if height < 42 { 0 } else { height - 42 };
    width / 6 + 26 <= x < width / 6 + 29 && top <= y < top + 18
}

/// Whether the picture covers a place: from 69 percent of the width on, with 18
/// columns to spare on the right, 70 rows above and 24 below.
pub open spec fn picture_covers(width: int, height: int, x: int, y: int) -> bool {
    width * 69 / 100 <= x < width - 18 && 70 <= y < height - 24
}

/// The width of the box, and that it has moved `moved` columns by a frame: seven
/// for each frame, around again when it would leave the text.
pub open spec fn box_at(width: int, frame: int, wide: int, moved: int, rounds: int) -> bool {
    let room = width * 47 / 100 - wide;
    &&& wide == if width < 192 { 24 } else { width / 8 }
    &&& room >= 2 ==> 0 <= moved < room && 7 * frame == rounds * room + moved
    &&& room < 2 ==> moved == 0
}

proof fn lemma_box(width: int, frame: int, wide: int, moved: int, rounds: int)
    requires
        0 < width,
        0 <= frame,
        box_at(width, frame, wide, moved, rounds),
    ensures
        box_width(width) == wide,
        box_left(width, frame) == width / 6 + 18 + moved,
{
    let room = width * 47 / 100 - wide;
    if room >= 2 {
        assert(rounds * room == room * rounds) by (nonlinear_arith);
        vstd::arithmetic::div_mod::lemma_fundamental_div_mod_converse(frame * 7, room, rounds, moved);
    } else {
        assert((frame * 7) % 1 == 0);
    }
}

/// Every frame has the box at one place.
pub proof fn law_box_has_a_place(width: int, frame: int)
    requires
        0 < width,
        0 <= frame,
    ensures
        exists|wide: int, moved: int, rounds: int| box_at(width, frame, wide, moved, rounds),
{
    let wide = if width < 192 { 24 } else { width / 8 };
    let room = width * 47 / 100 - wide;
    if room >= 2 {
        let moved = (7 * frame) % room;
        let rounds = (7 * frame) / room;
        vstd::arithmetic::div_mod::lemma_fundamental_div_mod(7 * frame, room);
        assert(rounds * room == room * rounds) by (nonlinear_arith);
        assert(box_at(width, frame, wide, moved, rounds));
    } else {
        assert(box_at(width, frame, wide, 0, 0));
    }
}

/// The caret blinks: it is on for fifteen frames and off for the next fifteen.
/// While it is on it lies above everything.
#[verifier::rlimit(60)]
pub proof fn law_caret_blinks(
    width: int,
    height: int,
    frame: int,
    frame_count: int,
    scene: SyntheticScene,
    x: int,
    y: int,
)
    requires
        0 < width,
        0 < height,
        0 <= frame,
        caret_covers(width, height, x, y),
        frame % 30 < 15,
    ensures
        synthetic_pixel(width, height, frame, frame_count, scene, x, y) == (Bgra {
            b: 230,
            g: 230,
            r: 230,
            a: 255,
        }),
        forall|later: int|
            later % 30 >= 15 ==> (#[trigger] synthetic_pixel(
                width,
                height,
                later,
                frame_count,
                scene,
                x,
                y,
            ) != (Bgra { b: 230, g: 230, r: 230, a: 255 }) || picture_covers(width, height, x, y)),
{
    assert forall|later: int| later % 30 >= 15 implies (#[trigger] synthetic_pixel(
        width,
        height,
        later,
        frame_count,
        scene,
        x,
        y,
    ) != (Bgra { b: 230, g: 230, r: 230, a: 255 }) || picture_covers(width, height, x, y)) by {
        let seen = synthetic_pixel(width, height, later, frame_count, scene, x, y);
        if !picture_covers(width, height, x, y) {
            assert(seen.r != 230 || seen.b != 230);
        }
    }
}

/// The box lies above everything but the caret.
pub proof fn law_box_is_drawn(
    width: int,
    height: int,
    frame: int,
    frame_count: int,
    scene: SyntheticScene,
    wide: int,
    moved: int,
    rounds: int,
    x: int,
    y: int,
)
    requires
        0 < width,
        0 < height,
        0 <= frame,
        box_at(width, frame, wide, moved, rounds),
        box_covers(width, height, wide, moved, x, y),
        frame % 30 >= 15 || !caret_covers(width, height, x, y),
    ensures
        synthetic_pixel(width, height, frame, frame_count, scene, x, y) == (Bgra {
            b: 42,
            g: 128,
            r: 228,
            a: 255,
        }),
{
    lemma_box(width, frame, wide, moved, rounds);
}

/// Whether neither the box nor the caret covers a place of a frame.
pub open spec fn clear(width: int, height: int, frame: int, x: int, y: int) -> bool {
    &&& frame % 30 >= 15 || !caret_covers(width, height, x, y)
    &&& forall|wide: int, moved: int, rounds: int|
        #[trigger] box_at(width, frame, wide, moved, rounds) ==> !box_covers(
            width,
            height,
            wide,
            moved,
            x,
            y,
        )
}

proof fn lemma_clear(width: int, height: int, frame: int, x: int, y: int)
    requires
        0 < width,
        0 <= frame,
        clear(width, height, frame, x, y),
    ensures
        !in_rect(
            x,
            y,
            box_left(width, frame),
            height * 3 / 5,
            box_width(width),
            34,
        ),
        !(frame % 30 < 15 && in_rect(
            x,
            y,
            content_left(width) + 8,
            caret_top(height),
            3,
            18,
        )),
{
    law_box_has_a_place(width, frame);
    let (wide, moved, rounds) = choose|wide: int, moved: int, rounds: int|
        box_at(width, frame, wide, moved, rounds);
    lemma_box(width, frame, wide, moved, rounds);
    assert(!box_covers(width, height, wide, moved, x, y));
}

// ---------------------------------------------------------------------------
// The picture
// ---------------------------------------------------------------------------

proof fn lemma_divides(part: int, whole: int, share: int)
    requires
        whole > 0,
        share * whole <= part < (share + 1) * whole,
    ensures
        part / whole == share,
{
    let rest = part - share * whole;
    assert((share + 1) * whole == share * whole + whole) by (nonlinear_arith);
    vstd::arithmetic::div_mod::lemma_fundamental_div_mod_converse(part, whole, share, rest);
}

/// A pixel of the picture, `column` and `row` counted from its corner: a pattern
/// of the low bytes of both, moved on by five columns and three rows for each
/// step; blue grows to the right, green downwards and by two rows for each step,
/// and red is the pattern turned by two bits. The steps are the frames in the
/// mixed scene; in the screen scene there are none.
#[verifier::rlimit(60)]
pub proof fn law_picture_is_drawn(
    width: int,
    height: int,
    frame: int,
    frame_count: int,
    scene: SyntheticScene,
    x: int,
    y: int,
    blue: int,
    green: int,
)
    requires
        0 < width,
        0 < height,
        0 <= frame,
        picture_covers(width, height, x, y),
        clear(width, height, frame, x, y),
        ({
            let steps = if scene == SyntheticScene::Mixed { frame } else { 0 };
            let across = width - 18 - width * 69 / 100;
            let down = height - 94;
            &&& blue * across <= 255 * (x - width * 69 / 100) < (blue + 1) * across
            &&& green * down <= 255 * (y - 70 + 2 * steps) < (green + 1) * down
        }),
    ensures
        ({
            let steps = if scene == SyntheticScene::Mixed { frame } else { 0 };
            let seen = synthetic_pixel(width, height, frame, frame_count, scene, x, y);
            let pattern = ((x - width * 69 / 100 + 5 * steps) % 256) as u8 ^ ((y - 70 + 3 * steps)
                % 256) as u8;
            &&& seen.b == (pattern + blue) % 256
            &&& seen.g == green % 256
            &&& seen.r == (4 * pattern % 256 + pattern / 64 + 48) % 256
            &&& seen.a == 255
        }),
{
    let steps = if scene == SyntheticScene::Mixed { frame } else { 0 };
    let across = width - 18 - width * 69 / 100;
    let down = height - 94;
    lemma_clear(width, height, frame, x, y);
    lemma_divides(255 * (x - width * 69 / 100), across, blue);
    lemma_divides(255 * (y - 70 + 2 * steps), down, green);
    let pattern = ((x - width * 69 / 100 + 5 * steps) % 256) as u8 ^ ((y - 70 + 3 * steps) % 256) as u8;
    assert((pattern << 2) | (pattern >> 6) == 4 * pattern % 256 + pattern / 64) by (bit_vector);
}

/// In the mixed scene the pattern drifts: what red shows at a place it shows one
/// frame later five columns to the left and three rows up, and green two rows
/// up.
#[verifier::rlimit(60)]
pub proof fn law_picture_drifts(
    width: int,
    height: int,
    frame: int,
    frame_count: int,
    x: int,
    y: int,
)
    requires
        0 < width,
        0 < height,
        0 <= frame,
        picture_covers(width, height, x, y),
        clear(width, height, frame, x, y),
    ensures
        picture_covers(width, height, x - 5, y - 3) && clear(width, height, frame + 1, x - 5, y - 3)
            ==> synthetic_pixel(
            width,
            height,
            frame + 1,
            frame_count,
            SyntheticScene::Mixed,
            x - 5,
            y - 3,
        ).r == synthetic_pixel(width, height, frame, frame_count, SyntheticScene::Mixed, x, y).r,
        picture_covers(width, height, x, y - 2) && clear(width, height, frame + 1, x, y - 2)
            ==> synthetic_pixel(
            width,
            height,
            frame + 1,
            frame_count,
            SyntheticScene::Mixed,
            x,
            y - 2,
        ).g == synthetic_pixel(width, height, frame, frame_count, SyntheticScene::Mixed, x, y).g,
{
    lemma_clear(width, height, frame, x, y);
    if picture_covers(width, height, x - 5, y - 3) && clear(width, height, frame + 1, x - 5, y - 3) {
        lemma_clear(width, height, frame + 1, x - 5, y - 3);
    }
    if picture_covers(width, height, x, y - 2) && clear(width, height, frame + 1, x, y - 2) {
        lemma_clear(width, height, frame + 1, x, y - 2);
    }
}

// ---------------------------------------------------------------------------
// Text
// ---------------------------------------------------------------------------

/// Whether bit `k` of a word is set.
pub open spec fn bit(word: u32, k: u32) -> bool {
    (word >> k) & 1 == 1
}

/// Whether a dot of a glyph shows. A glyph has a word of its own, five bits of
/// which make a row, the next row five bits further down and around; in each
/// row every other dot is flipped, from the row's number modulo three on.
pub open spec fn dot_shows(line: int, glyph: int, row: int, column: int) -> bool {
    let word = ((line * 0x9e37_79b9 + glyph * 0x85eb_ca6b) % 0x1_0000_0000) as u32;
    let flipped = column - row % 3 == 0 || column - row % 3 == 2 || column - row % 3 == 4;
    bit(word, ((column - 5 * row) % 32) as u32) != flipped
}

proof fn lemma_dot(line: int, glyph: int, row: int, column: int)
    requires
        0 <= row < 7,
        0 <= column < 5,
    ensures
        glyph_dot(line, glyph, row, column) == dot_shows(line, glyph, row, column),
{
    let word = glyph_bits(line, glyph);
    let c = column as u32;
    let turn = (row * 5) as u32;
    let phase = (row % 3) as u32;
    let k = ((column - 5 * row) % 32) as u32;
    let flipped = column - row % 3 == 0 || column - row % 3 == 2 || column - row % 3 == 4;
    assert(flipped == (c == phase || c == phase + 2 || c == phase + 4));
    assert(k == if c >= turn { (c - turn) as u32 } else { (c + 32 - turn) as u32 });
    if row == 0 {
        assert(((word ^ (0x15u32 << 0u32)) >> c) & 1 != 0 <==> ((word >> c) & 1 == 1) != (c == 0 || c == 2
            || c == 4)) by (bit_vector)
            requires
                c < 5,
        ;
    } else {
        let down = (32 - turn) as u32;
        assert(((((word << turn) | (word >> down)) ^ (0x15u32 << phase)) >> c) & 1 != 0 <==> ((word >> k)
            & 1 == 1) != (c == phase || c == phase + 2 || c == phase + 4)) by (bit_vector)
            requires
                c < 5,
                phase < 3,
                5 <= turn <= 30,
                down == 32 - turn,
                k == if c >= turn { (c - turn) as u32 } else { (c + 32 - turn) as u32 },
        ;
    }
}

/// How far the text has moved up: not at all in the first third of the frames,
/// then three rows for each frame, back again after six.
pub open spec fn scrolled(frame: int, frame_count: int) -> int {
    if frame < frame_count / 3 {
        0
    } else {
        3 * (frame % 6)
    }
}

/// A frame of `height` rows has a text line for every 18 rows below row 70.
/// Every dot of each of them that shows is drawn in the line's tone, where
/// neither the box nor the caret nor the picture covers it.
#[verifier::rlimit(60)]
pub proof fn law_text_is_drawn(
    width: int,
    height: int,
    frame: int,
    frame_count: int,
    scene: SyntheticScene,
    line: int,
    glyph: int,
    row: int,
    column: int,
)
    requires
        0 < width,
        70 <= height,
        0 <= frame,
        0 <= line < (height - 70) / 18,
        0 <= glyph < width * 47 / 100 / 7,
        0 <= row < 7,
        0 <= column < 5,
        dot_shows(line, glyph, row, column),
    ensures
        ({
            let x = width / 6 + 18 + 7 * glyph + column;
            let y = 58 + 18 * line - scrolled(frame, frame_count) + row;
            let tone = 116 + 17 * line % 90;
            clear(width, height, frame, x, y) && !picture_covers(width, height, x, y) ==> synthetic_pixel(
                width,
                height,
                frame,
                frame_count,
                scene,
                x,
                y,
            ) == (Bgra { b: tone as u8, g: (tone + 8) as u8, r: (tone + 18) as u8, a: 255 })
        }),
{
    let x = width / 6 + 18 + 7 * glyph + column;
    let scroll = scrolled(frame, frame_count);
    let y = 58 + 18 * line - scroll + row;
    lemma_dot(line, glyph, row, column);
    assert((frame * 3) % 18 == 3 * (frame % 6));
    if clear(width, height, frame, x, y) && !picture_covers(width, height, x, y) {
        lemma_clear(width, height, frame, x, y);
        assert(text_line_at(scroll, y) == line);
        assert((x - (width / 6 + 18)) / 7 == glyph);
        assert((x - (width / 6 + 18)) % 7 == column);
        assert(18 * line <= height - 70 - 18);
        assert(58 + line * 18 - scroll + 9 < height);
        assert(text_line_covers(width, height, scroll, line, x, y));
    }
}

/// Of two neighbouring glyphs at least one has a dot in its first row: no line
/// with two or more glyphs is blank.
#[verifier::rlimit(60)]
pub proof fn law_no_text_line_is_blank(line: int, glyph: int)
    ensures
        exists|at: int, column: int|
            glyph <= at <= glyph + 1 && 0 <= column < 5 && #[trigger] dot_shows(line, at, 0, column),
{
    let first = ((line * 0x9e37_79b9 + glyph * 0x85eb_ca6b) % 0x1_0000_0000) as u32;
    let second = ((line * 0x9e37_79b9 + (glyph + 1) * 0x85eb_ca6b) % 0x1_0000_0000) as u32;
    if !(exists|at: int, column: int|
        glyph <= at <= glyph + 1 && 0 <= column < 5 && #[trigger] dot_shows(line, at, 0, column)) {
        assert(!dot_shows(line, glyph, 0, 0));
        assert(!dot_shows(line, glyph + 1, 0, 0));
        assert((first >> 0u32) & 1 == first % 2) by (bit_vector);
        assert((second >> 0u32) & 1 == second % 2) by (bit_vector);
        assert(first % 2 == 1 && second % 2 == 1);
        let sum = line * 0x9e37_79b9 + glyph * 0x85eb_ca6b;
        lemma_word_parity(sum);
        lemma_word_parity(sum + 0x85eb_ca6b);
        assert(line * 0x9e37_79b9 + (glyph + 1) * 0x85eb_ca6b == sum + 0x85eb_ca6b);
        assert((sum + 0x85eb_ca6b) % 2 != sum % 2);
    }
}

proof fn lemma_word_parity(sum: int)
    ensures
        (sum % 0x1_0000_0000) as u32 % 2 == sum % 2,
{
    vstd::arithmetic::div_mod::lemma_mod_mod(sum, 2, 0x8000_0000);
}

/// Each text line can be seen: wherever two neighbouring glyphs of it lie free,
/// one of their places has the line's tone.
pub proof fn law_each_text_line_shows(
    width: int,
    height: int,
    frame: int,
    frame_count: int,
    scene: SyntheticScene,
    line: int,
    glyph: int,
)
    requires
        0 < width,
        70 <= height,
        0 <= frame,
        0 <= line < (height - 70) / 18,
        0 <= glyph < width * 47 / 100 / 7 - 1,
        forall|x: int|
            width / 6 + 18 + 7 * glyph <= x < width / 6 + 18 + 7 * glyph + 12 ==> #[trigger] clear(
                width,
                height,
                frame,
                x,
                58 + 18 * line - scrolled(frame, frame_count),
            ) && !picture_covers(width, height, x, 58 + 18 * line - scrolled(frame, frame_count)),
    ensures
        exists|x: int|
            width / 6 + 18 + 7 * glyph <= x < width / 6 + 18 + 7 * glyph + 12
                && #[trigger] synthetic_pixel(
                width,
                height,
                frame,
                frame_count,
                scene,
                x,
                58 + 18 * line - scrolled(frame, frame_count),
            ) == (Bgra {
                b: (116 + 17 * line % 90) as u8,
                g: (124 + 17 * line % 90) as u8,
                r: (134 + 17 * line % 90) as u8,
                a: 255,
            }),
{
    law_no_text_line_is_blank(line, glyph);
    let (at, column) = choose|at: int, column: int|
        glyph <= at <= glyph + 1 && 0 <= column < 5 && #[trigger] dot_shows(line, at, 0, column);
    law_text_is_drawn(width, height, frame, frame_count, scene, line, at, 0, column);
    let x = width / 6 + 18 + 7 * at + column;
    let y = 58 + 18 * line - scrolled(frame, frame_count);
    assert(clear(width, height, frame, x, y));
    assert(58 + 18 * line - scrolled(frame, frame_count) + 0 == y);
}

/// Every text line of a frame of 360 columns or more can be seen, whatever else
/// the frame shows: some place in its first row has its tone. There are as many
/// lines as the rows below row 70 have room for, 18 rows each.
pub proof fn law_every_text_line_is_visible(
    width: int,
    height: int,
    frame: int,
    frame_count: int,
    scene: SyntheticScene,
    line: int,
)
    requires
        360 <= width,
        70 <= height,
        0 <= frame,
        0 <= line < (height - 70) / 18,
    ensures
        exists|x: int|
            width / 6 + 18 <= x < width / 6 + 18 + width * 47 / 100 && #[trigger] synthetic_pixel(
                width,
                height,
                frame,
                frame_count,
                scene,
                x,
                58 + 18 * line - scrolled(frame, frame_count),
            ) == (Bgra {
                b: (116 + 17 * line % 90) as u8,
                g: (124 + 17 * line % 90) as u8,
                r: (134 + 17 * line % 90) as u8,
                a: 255,
            }),
{
    let y = 58 + 18 * line - scrolled(frame, frame_count);
    let left = width / 6 + 18;
    let glyphs = width * 47 / 100 / 7;
    law_box_has_a_place(width, frame);
    let (wide, moved, rounds) = choose|wide: int, moved: int, rounds: int|
        box_at(width, frame, wide, moved, rounds);
    lemma_box(width, frame, wide, moved, rounds);
    let glyph = if moved >= 26 { 2 } else { glyphs - 2 };
    assert forall|x: int| left + 7 * glyph <= x < left + 7 * glyph + 12 implies #[trigger] clear(
        width,
        height,
        frame,
        x,
        58 + 18 * line - scrolled(frame, frame_count),
    ) && !picture_covers(width, height, x, 58 + 18 * line - scrolled(frame, frame_count)) by {
        assert forall|other_wide: int, other_moved: int, other_rounds: int| #[trigger]
            box_at(width, frame, other_wide, other_moved, other_rounds) implies !box_covers(
            width,
            height,
            other_wide,
            other_moved,
            x,
            y,
        ) by {
            lemma_box(width, frame, other_wide, other_moved, other_rounds);
        }
    }
    law_each_text_line_shows(width, height, frame, frame_count, scene, line, glyph);
}

/// The picture and the text do not meet: the text ends before the picture
/// starts.
pub proof fn law_text_ends_before_the_picture(width: int, height: int, glyph: int, column: int, y: int)
    requires
        0 < width,
        0 <= glyph < width * 47 / 100 / 7,
        0 <= column < 5,
        width >= 360,
    ensures
        !picture_covers(width, height, width / 6 + 18 + 7 * glyph + column, y),
{
}

// ---------------------------------------------------------------------------
// The desktop
// ---------------------------------------------------------------------------

/// Whether a dot of the text stands at a place.
pub open spec fn inked(width: int, height: int, scroll: int, x: int, y: int) -> bool {
    exists|line: int, glyph: int, row: int, column: int|
        #![trigger dot_shows(line, glyph, row, column)]
        0 <= line < (height - 70) / 18 && 0 <= glyph < width * 47 / 100 / 7 && 0 <= row < 7 && 0 <= column
            < 5 && x == width / 6 + 18 + 7 * glyph + column && y == 58 + 18 * line - scroll + row
            && dot_shows(line, glyph, row, column)
}

/// Where nothing else is drawn a frame shows the desktop: a side bar of a sixth
/// of the width below row 42, a title bar above it with a tab, and behind them
/// two panels, the right one brighter, in which blue grows downwards by 18 steps
/// and green to the right by 22.
#[verifier::rlimit(60)]
pub proof fn law_desktop_is_drawn(
    width: int,
    height: int,
    frame: int,
    frame_count: int,
    scene: SyntheticScene,
    x: int,
    y: int,
    down: int,
    across: int,
)
    requires
        0 <= x < width,
        0 <= y < height,
        0 <= frame,
        clear(width, height, frame, x, y),
        !picture_covers(width, height, x, y),
        !inked(width, height, scrolled(frame, frame_count), x, y),
        down * height <= 18 * y < (down + 1) * height,
        across * width <= 22 * x < (across + 1) * width,
    ensures
        ({
            let panel = if x < width * 2 / 3 { 28int } else { 44int };
            let seen = synthetic_pixel(width, height, frame, frame_count, scene, x, y);
            seen == if y >= 42 && x < width / 6 {
                Bgra { b: 42, g: 48, r: 54, a: 255 }
            } else if y < 42 && 12 <= x < 12 + width / 4 && 9 <= y < 34 {
                Bgra { b: 82, g: 88, r: 96, a: 255 }
            } else if y < 42 {
                Bgra { b: 36, g: 38, r: 42, a: 255 }
            } else {
                Bgra {
                    b: (panel + down) as u8,
                    g: (panel + across) as u8,
                    r: (panel + 12) as u8,
                    a: 255,
                }
            }
        }),
{
    lemma_clear(width, height, frame, x, y);
    lemma_divides(18 * y, height, down);
    lemma_divides(22 * x, width, across);
    let scroll = scrolled(frame, frame_count);
    assert((frame * 3) % 18 == 3 * (frame % 6));
    let line = text_line_at(scroll, y);
    if 0 <= line < line_count(height) && text_line_covers(
        width,
        height,
        scroll,
        line,
        x,
        y,
    ) {
        let left = width / 6 + 18;
        let glyph = (x - left) / 7;
        let column = (x - left) % 7;
        let row = y - (58 + line * 18 - scroll);
        lemma_dot(line, glyph, row, column);
        assert(dot_shows(line, glyph, row, column));
        assert(inked(width, height, scroll, x, y));
    }
}

} // verus!
