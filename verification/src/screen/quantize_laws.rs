//! What the colours of a mode are.
use vstd::prelude::*;

use crate::screen::quantize::{
    distance, is_nearest, level_of, level_value, nearest_color, palette, quantized, quantized_channel,
    widened, ColorMode, PaletteColor,
};
use crate::screen::render::Bgra;

verus! {

/// The full mode changes nothing.
pub proof fn law_full_mode_keeps_colors(color: Bgra)
    ensures
        quantized(color, ColorMode::Full) == color,
{
}

/// With 4096 colours each channel becomes the nearest of the sixteen multiples
/// of 17.
pub proof fn law_nearest_of_4096_colors(color: Bgra)
    ensures
        ({
            let out = quantized(color, ColorMode::Colors4096);
            &&& out.b % 17 == 0 && -8 <= out.b - color.b <= 8
            &&& out.g % 17 == 0 && -8 <= out.g - color.g <= 8
            &&& out.r % 17 == 0 && -8 <= out.r - color.r <= 8
            &&& out.a == color.a
        }),
{
    lemma_fifteen(color.b);
    lemma_fifteen(color.g);
    lemma_fifteen(color.r);
}

proof fn lemma_fifteen(value: u8)
    ensures
        quantized_channel(value, 15) % 17 == 0,
        -8 <= quantized_channel(value, 15) - value <= 8,
{
    let step = level_of(value as int, 15);
    assert((step * 255 + 7) / 15 == step * 17);
}

proof fn lemma_three(value: u8)
    ensures
        quantized_channel(value, 3) % 85 == 0,
        -42 <= quantized_channel(value, 3) - value <= 42,
{
    let step = level_of(value as int, 3);
    assert((step * 255 + 1) / 3 == step * 85);
}

/// Whether a channel is one of eight steps from 0 to 255, to the nearest byte,
/// and no other step is nearer to a value.
pub open spec fn nearest_eighth(out: u8, value: u8) -> bool {
    exists|step: int|
        0 <= step <= 7 && -127 <= #[trigger] (255 * step) - 7 * value <= 127 && -3 <= 7 * out - 255 * step
            <= 3
}

proof fn lemma_seven(value: u8)
    ensures
        nearest_eighth(quantized_channel(value, 7), value),
{
    let step = level_of(value as int, 7);
    assert(0 <= step <= 7);
    let scaled = 255 * step;
    assert(-127 <= scaled - 7 * value <= 127);
    assert(step * 255 == scaled);
    assert(0 <= (step * 255 + 3) / 7 <= 255);
}

/// With 256 colours red and green become the nearest of eight steps, blue the
/// nearest of four.
pub proof fn law_nearest_of_256_colors(color: Bgra)
    ensures
        ({
            let out = quantized(color, ColorMode::Colors256);
            &&& out.b % 85 == 0 && -42 <= out.b - color.b <= 42
            &&& nearest_eighth(out.g, color.g)
            &&& nearest_eighth(out.r, color.r)
            &&& out.a == color.a
        }),
{
    lemma_three(color.b);
    lemma_seven(color.g);
    lemma_seven(color.r);
}

/// Reducing colours keeps their order: a brighter channel does not become the
/// darker one.
pub proof fn law_reduction_keeps_order(low: u8, high: u8, levels: u32)
    requires
        low <= high,
        levels == 3 || levels == 7 || levels == 15,
    ensures
        quantized_channel(low, levels) <= quantized_channel(high, levels),
{
    if levels == 3 {
        lemma_order(low as int, high as int, 3);
    } else if levels == 7 {
        lemma_order(low as int, high as int, 7);
    } else {
        lemma_order(low as int, high as int, 15);
    }
}

#[verifier::rlimit(60)]
proof fn lemma_order(low: int, high: int, levels: int)
    requires
        0 <= low <= high <= 255,
        levels == 3 || levels == 7 || levels == 15,
    ensures
        0 <= level_value(level_of(low, levels), levels) <= level_value(level_of(high, levels), levels)
            <= 255,
{
    let first = level_of(low, levels);
    let second = level_of(high, levels);
    assert(low * levels <= high * levels <= 255 * levels) by (nonlinear_arith)
        requires
            0 <= low <= high <= 255,
            levels > 0,
    ;
    assert(0 <= low * levels) by (nonlinear_arith)
        requires
            0 <= low,
            levels > 0,
    ;
    assert(0 <= first <= second <= levels);
    if levels == 3 {
        assert((first * 255 + 1) / 3 <= (second * 255 + 1) / 3);
    } else if levels == 7 {
        assert((first * 255 + 3) / 7 <= (second * 255 + 3) / 7);
    } else {
        assert((first * 255 + 7) / 15 <= (second * 255 + 7) / 15);
    }
}

/// Whether a colour is one of the sixteen: dark ones with channels of 0 and 128,
/// bright ones with channels of 0 and 255, and a light gray.
pub open spec fn is_one_of_sixteen(b: int, g: int, r: int) -> bool {
    ||| (b == 0 || b == 128) && (g == 0 || g == 128) && (r == 0 || r == 128)
    ||| (b == 0 || b == 255) && (g == 0 || g == 255) && (r == 0 || r == 255)
    ||| b == 192 && g == 192 && r == 192
}

/// The place of one of the sixteen colours: dark before bright, each by blue,
/// green and red as the bits of a number, with light gray where the dark ones
/// would have their white and dark gray in the place of the bright ones' black.
pub open spec fn place_of(b: int, g: int, r: int) -> int {
    if b == 192 {
        7
    } else if b == 128 && g == 128 && r == 128 {
        8
    } else if b == 255 || g == 255 || r == 255 {
        8 + b / 255 + 2 * (g / 255) + 4 * (r / 255)
    } else {
        b / 128 + 2 * (g / 128) + 4 * (r / 128)
    }
}

/// How far apart two colours are to the eye: green counts four times, red twice.
pub open spec fn apart(b: int, g: int, r: int, other_b: int, other_g: int, other_r: int) -> int {
    (b - other_b) * (b - other_b) + 4 * ((g - other_g) * (g - other_g)) + 2 * ((r - other_r) * (r
        - other_r))
}

proof fn lemma_apart(b: int, g: int, r: int, color: PaletteColor)
    ensures
        distance(r, g, b, color) == apart(b, g, r, color.b as int, color.g as int, color.r as int),
{
    let dr = r - color.r;
    let dg = g - color.g;
    assert(2 * dr * dr == 2 * (dr * dr)) by (nonlinear_arith);
    assert(4 * dg * dg == 4 * (dg * dg)) by (nonlinear_arith);
}

proof fn lemma_has_nearest(r: int, g: int, b: int, upto: int) -> (index: int)
    requires
        1 <= upto <= 16,
    ensures
        0 <= index < upto,
        forall|other: int|
            0 <= other < upto ==> distance(r, g, b, palette(index)) <= #[trigger] distance(
                r,
                g,
                b,
                palette(other),
            ),
        forall|other: int|
            0 <= other < index ==> distance(r, g, b, palette(index)) < #[trigger] distance(
                r,
                g,
                b,
                palette(other),
            ),
    decreases upto,
{
    if upto == 1 {
        0
    } else {
        let best = lemma_has_nearest(r, g, b, upto - 1);
        if distance(r, g, b, palette(upto - 1)) < distance(r, g, b, palette(best)) {
            upto - 1
        } else {
            best
        }
    }
}

#[verifier::rlimit(60)]
proof fn lemma_palette_place(b: int, g: int, r: int)
    requires
        is_one_of_sixteen(b, g, r),
    ensures
        0 <= place_of(b, g, r) < 16,
        palette(place_of(b, g, r)).b == b,
        palette(place_of(b, g, r)).g == g,
        palette(place_of(b, g, r)).r == r,
{
}

proof fn lemma_place_of_palette(index: int)
    requires
        0 <= index < 16,
    ensures
        ({
            let color = palette(index);
            &&& is_one_of_sixteen(color.b as int, color.g as int, color.r as int)
            &&& place_of(color.b as int, color.g as int, color.r as int) == index
        }),
{
}

/// With sixteen colours a pixel becomes the one of the sixteen that is nearest
/// to it, of equally near ones the first, and keeps its alpha. Its channels are
/// taken to five bits before: `wide_*` are those bits spread over a byte.
#[verifier::rlimit(60)]
pub proof fn law_nearest_of_sixteen_colors(
    color: Bgra,
    wide_b: int,
    wide_g: int,
    wide_r: int,
    other_b: int,
    other_g: int,
    other_r: int,
)
    requires
        31 * wide_b <= 255 * (color.b as int / 8) < 31 * wide_b + 31,
        31 * wide_g <= 255 * (color.g as int / 8) < 31 * wide_g + 31,
        31 * wide_r <= 255 * (color.r as int / 8) < 31 * wide_r + 31,
        is_one_of_sixteen(other_b, other_g, other_r),
    ensures
        ({
            let out = quantized(color, ColorMode::Colors16);
            let own = apart(wide_b, wide_g, wide_r, out.b as int, out.g as int, out.r as int);
            let others = apart(wide_b, wide_g, wide_r, other_b, other_g, other_r);
            &&& is_one_of_sixteen(out.b as int, out.g as int, out.r as int)
            &&& own <= others
            &&& own == others ==> place_of(out.b as int, out.g as int, out.r as int) <= place_of(
                other_b,
                other_g,
                other_r,
            )
            &&& out.a == color.a
        }),
{
    assert(widened(color.b as int / 8) == wide_b);
    assert(widened(color.g as int / 8) == wide_g);
    assert(widened(color.r as int / 8) == wide_r);
    let index = lemma_has_nearest(wide_r, wide_g, wide_b, 16);
    assert(is_nearest(index, wide_r, wide_g, wide_b));
    let chosen = choose|index: int| is_nearest(index, wide_r, wide_g, wide_b);
    assert(is_nearest(chosen, wide_r, wide_g, wide_b));
    assert(nearest_color(wide_r, wide_g, wide_b) == palette(chosen));
    let out = palette(chosen);
    lemma_place_of_palette(chosen);
    lemma_palette_place(other_b, other_g, other_r);
    let other = place_of(other_b, other_g, other_r);
    lemma_apart(wide_b, wide_g, wide_r, out);
    lemma_apart(wide_b, wide_g, wide_r, palette(other));
    assert(distance(wide_r, wide_g, wide_b, palette(chosen)) <= distance(
        wide_r,
        wide_g,
        wide_b,
        palette(other),
    ));
}

} // verus!
