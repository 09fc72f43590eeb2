//! Reduction of a frame to fewer colours.
use vstd::prelude::*;
use vstd::string::*;

use crate::screen::render::Bgra;
use crate::text::text_eq;

verus! {

/// How many colours a frame may have.
#[derive(Clone, Copy, Debug, PartialEq, Eq, Structural)]
pub enum ColorMode {
    Full,
    Colors4096,
    Colors256,
    Colors16,
}

impl ColorMode {
    /// The mode's name.
    pub open spec fn name(self) -> Seq<char> {
        match self {
            ColorMode::Full => "full"@,
            ColorMode::Colors4096 => "4096"@,
            ColorMode::Colors256 => "256"@,
            ColorMode::Colors16 => "16"@,
        }
    }

    /// The mode that a text names.
    pub open spec fn named(value: Seq<char>) -> Option<ColorMode> {
        if value == "full"@ {
            Some(ColorMode::Full)
        } else if value == "4096"@ {
            Some(ColorMode::Colors4096)
        } else if value == "256"@ {
            Some(ColorMode::Colors256)
        } else if value == "16"@ {
            Some(ColorMode::Colors16)
        } else {
            None
        }
    }

    pub fn parse(value: &str) -> (mode: Option<ColorMode>)
        ensures
            mode == ColorMode::named(value@),
    {
        if text_eq(value, "full") {
            Some(ColorMode::Full)
        } else if text_eq(value, "4096") {
            Some(ColorMode::Colors4096)
        } else if text_eq(value, "256") {
            Some(ColorMode::Colors256)
        } else if text_eq(value, "16") {
            Some(ColorMode::Colors16)
        } else {
            None
        }
    }

    pub fn label(self) -> (text: &'static str)
        ensures
            text@ == self.name(),
    {
        match self {
            ColorMode::Full => "full",
            ColorMode::Colors4096 => "4096",
            ColorMode::Colors256 => "256",
            ColorMode::Colors16 => "16",
        }
    }
}

/// A mode's label parses to the mode.
pub proof fn law_color_mode_label_parses(mode: ColorMode)
    ensures
        ColorMode::named(mode.name()) == Some(mode),
{
    reveal_strlit("full");
    reveal_strlit("4096");
    reveal_strlit("256");
    reveal_strlit("16");
    assert("full"@[0] == 'f');
    assert("4096"@[0] == '4');
    assert("256"@[0] == '2');
    assert("16"@[0] == '1');
}

// ---------------------------------------------------------------------------
// Channels
// ---------------------------------------------------------------------------

/// Step `step` of `levels` equal steps from 0 to 255, rounded.
pub open spec fn level_value(step: int, levels: int) -> int {
    (step * 255 + levels / 2) / levels
}

/// The step nearest to a value.
pub open spec fn level_of(value: int, levels: int) -> int {
    (value * levels + 127) / 255
}

/// A channel on the nearest of `levels` equal steps.
pub open spec fn quantized_channel(value: u8, levels: u32) -> u8 {
    level_value(level_of(value as int, levels as int), levels as int) as u8
}

proof fn lemma_level_bounds(value: int, levels: int)
    requires
        0 <= value <= 255,
        1 <= levels,
    ensures
        0 <= level_of(value, levels) <= levels,
        0 <= level_value(level_of(value, levels), levels) <= 255,
{
    let step = level_of(value, levels);
    let sum = value * levels + 127;
    assert(0 <= value * levels <= 255 * levels) by (nonlinear_arith)
        requires
            0 <= value <= 255,
            1 <= levels,
    ;
    assert(0 <= step <= levels);
    let scaled = step * 255 + levels / 2;
    vstd::arithmetic::div_mod::lemma_fundamental_div_mod(scaled, levels);
    let out = scaled / levels;
    assert(0 <= out <= 255) by (nonlinear_arith)
        requires
            scaled == levels * out + scaled % levels,
            0 <= scaled % levels < levels,
            0 <= scaled <= levels * 255 + levels / 2,
            levels / 2 < levels,
            1 <= levels,
    ;
}

fn quantize_channel(value: u8, levels: u32) -> (out: u8)
    requires
        1 <= levels <= 255,
    ensures
        out == quantized_channel(value, levels),
{
    proof {
        lemma_level_bounds(value as int, levels as int);
        assert(0 <= value * levels <= 255 * levels) by (nonlinear_arith)
            requires
                0 <= value <= 255,
                1 <= levels,
        ;
    }
    let bucket: u32 = (value as u32 * levels + 127) / 255;
    ((bucket * 255 + levels / 2) / levels) as u8
}

/// A quantized channel lies on one of the steps and is quantized to itself.
pub proof fn law_channel_levels(value: u8, levels: u32)
    requires
        1 <= levels <= 253,
    ensures
        exists|step: int|
            0 <= step <= levels && quantized_channel(value, levels) == #[trigger] level_value(
                step,
                levels as int,
            ),
        quantized_channel(quantized_channel(value, levels), levels) == quantized_channel(value, levels),
{
    let l = levels as int;
    lemma_level_bounds(value as int, l);
    let step = level_of(value as int, l);
    let out = level_value(step, l);
    assert(quantized_channel(value, levels) == out);
    let scaled = step * 255 + l / 2;
    vstd::arithmetic::div_mod::lemma_fundamental_div_mod(scaled, l);
    let rest = scaled % l;
    assert(out * l == scaled - rest) by (nonlinear_arith)
        requires
            scaled == l * out + rest,
    ;
    assert(level_of(out, l) == step);
}

/// With 15 steps every channel is a multiple of 17, with 3 steps of 85.
pub proof fn law_channel_multiples(value: u8)
    ensures
        quantized_channel(value, 15) % 17 == 0,
        quantized_channel(value, 3) % 85 == 0,
{
    lemma_level_bounds(value as int, 15);
    lemma_level_bounds(value as int, 3);
    let fine = level_of(value as int, 15);
    let coarse = level_of(value as int, 3);
    assert(level_value(fine, 15) == fine * 17);
    assert(level_value(coarse, 3) == coarse * 85);
}

// ---------------------------------------------------------------------------
// The sixteen colours
// ---------------------------------------------------------------------------

/// A colour of the palette.
#[derive(Clone, Copy, Debug, PartialEq, Eq, Structural)]
pub struct PaletteColor {
    pub b: u8,
    pub g: u8,
    pub r: u8,
}

pub open spec fn bgr(b: u8, g: u8, r: u8) -> PaletteColor {
    PaletteColor { b, g, r }
}

/// The palette.
pub open spec fn palette(index: int) -> PaletteColor {
    if index == 0 { bgr(0, 0, 0) }
    else if index == 1 { bgr(128, 0, 0) }
    else if index == 2 { bgr(0, 128, 0) }
    else if index == 3 { bgr(128, 128, 0) }
    else if index == 4 { bgr(0, 0, 128) }
    else if index == 5 { bgr(128, 0, 128) }
    else if index == 6 { bgr(0, 128, 128) }
    else if index == 7 { bgr(192, 192, 192) }
    else if index == 8 { bgr(128, 128, 128) }
    else if index == 9 { bgr(255, 0, 0) }
    else if index == 10 { bgr(0, 255, 0) }
    else if index == 11 { bgr(255, 255, 0) }
    else if index == 12 { bgr(0, 0, 255) }
    else if index == 13 { bgr(255, 0, 255) }
    else if index == 14 { bgr(0, 255, 255) }
    else { bgr(255, 255, 255) }
}

fn palette_color(index: usize) -> (color: PaletteColor)
    requires
        index < 16,
    ensures
        color == palette(index as int),
{
    match index {
        0 => PaletteColor { b: 0, g: 0, r: 0 },
        1 => PaletteColor { b: 128, g: 0, r: 0 },
        2 => PaletteColor { b: 0, g: 128, r: 0 },
        3 => PaletteColor { b: 128, g: 128, r: 0 },
        4 => PaletteColor { b: 0, g: 0, r: 128 },
        5 => PaletteColor { b: 128, g: 0, r: 128 },
        6 => PaletteColor { b: 0, g: 128, r: 128 },
        7 => PaletteColor { b: 192, g: 192, r: 192 },
        8 => PaletteColor { b: 128, g: 128, r: 128 },
        9 => PaletteColor { b: 255, g: 0, r: 0 },
        10 => PaletteColor { b: 0, g: 255, r: 0 },
        11 => PaletteColor { b: 255, g: 255, r: 0 },
        12 => PaletteColor { b: 0, g: 0, r: 255 },
        13 => PaletteColor { b: 255, g: 0, r: 255 },
        14 => PaletteColor { b: 0, g: 255, r: 255 },
        _ => PaletteColor { b: 255, g: 255, r: 255 },
    }
}

/// The distance of a colour to a palette colour; green weighs most.
pub open spec fn distance(r: int, g: int, b: int, color: PaletteColor) -> int {
    2 * (r - color.r) * (r - color.r) + 4 * (g - color.g) * (g - color.g) + (b - color.b) * (b
        - color.b)
}

/// Whether palette colour `index` is the first of the nearest ones.
pub open spec fn is_nearest(index: int, r: int, g: int, b: int) -> bool {
    &&& 0 <= index < 16
    &&& forall|other: int|
        0 <= other < 16 ==> distance(r, g, b, palette(index)) <= #[trigger] distance(
            r,
            g,
            b,
            palette(other),
        )
    &&& forall|other: int|
        0 <= other < index ==> distance(r, g, b, palette(index)) < #[trigger] distance(
            r,
            g,
            b,
            palette(other),
        )
}

/// The nearest palette colour.
pub open spec fn nearest_color(r: int, g: int, b: int) -> PaletteColor {
    palette(choose|index: int| is_nearest(index, r, g, b))
}

proof fn lemma_nearest_unique(index: int, r: int, g: int, b: int)
    requires
        is_nearest(index, r, g, b),
    ensures
        nearest_color(r, g, b) == palette(index),
{
    let chosen = choose|index: int| is_nearest(index, r, g, b);
    assert(is_nearest(chosen, r, g, b));
    if chosen < index {
        assert(distance(r, g, b, palette(index)) < distance(r, g, b, palette(chosen)));
        assert(distance(r, g, b, palette(chosen)) <= distance(r, g, b, palette(index)));
    } else if index < chosen {
        assert(distance(r, g, b, palette(chosen)) < distance(r, g, b, palette(index)));
        assert(distance(r, g, b, palette(index)) <= distance(r, g, b, palette(chosen)));
    }
}

/// Five bits of a channel as eight.
pub open spec fn widened(value: int) -> int {
    value * 255 / 31
}

/// The palette colour for each colour of five bits per channel.
pub open spec fn palette_table() -> Seq<PaletteColor> {
    Seq::new(
        32_768,
        |i: int| nearest_color(widened(i / 1024), widened(i / 32 % 32), widened(i % 32)),
    )
}

/// The nearest palette colour to a colour with channels up to 255.
fn find_nearest(r: i32, g: i32, b: i32) -> (color: PaletteColor)
    requires
        0 <= r <= 255,
        0 <= g <= 255,
        0 <= b <= 255,
    ensures
        color == nearest_color(r as int, g as int, b as int),
{
    let mut best: usize = 0;
    let mut best_distance: i32 = i32::MAX;
    let mut index: usize = 0;
    while index < 16
        invariant
            index <= 16,
            0 <= r <= 255,
            0 <= g <= 255,
            0 <= b <= 255,
            best < 16,
            index == 0 ==> best_distance == i32::MAX && best == 0,
            index > 0 ==> {
                &&& best < index
                &&& best_distance == distance(r as int, g as int, b as int, palette(best as int))
            },
            forall|other: int|
                0 <= other < index ==> best_distance <= #[trigger] distance(
                    r as int,
                    g as int,
                    b as int,
                    palette(other),
                ),
            forall|other: int|
                0 <= other < best ==> best_distance < #[trigger] distance(
                    r as int,
                    g as int,
                    b as int,
                    palette(other),
                ),
        decreases 16 - index,
    {
        let color = palette_color(index);
        let dr: i32 = r - color.r as i32;
        let dg: i32 = g - color.g as i32;
        let db: i32 = b - color.b as i32;
        proof {
            lemma_square(dr as int);
            lemma_square(dg as int);
            lemma_square(db as int);
            lemma_scaled_square(2, dr as int);
            lemma_scaled_square(4, dg as int);
        }
        let away: i32 = 2 * dr * dr + 4 * dg * dg + db * db;
        assert(away == distance(r as int, g as int, b as int, palette(index as int)));
        if away < best_distance {
            best = index;
            best_distance = away;
        }
        index += 1;
    }
    proof {
        assert(is_nearest(best as int, r as int, g as int, b as int));
        lemma_nearest_unique(best as int, r as int, g as int, b as int);
    }
    palette_color(best)
}

proof fn lemma_square(value: int)
    requires
        -255 <= value <= 255,
    ensures
        0 <= value * value <= 65_025,
{
    assert(0 <= value * value <= 65_025) by (nonlinear_arith)
        requires
            -255 <= value <= 255,
    ;
}

proof fn lemma_scaled_square(scale: int, value: int)
    requires
        -255 <= value <= 255,
        0 <= scale <= 4,
    ensures
        -1020 <= scale * value <= 1020,
        scale * value * value == scale * (value * value),
        0 <= scale * (value * value) <= 260_100,
{
    lemma_square(value);
    let square = value * value;
    assert(-1020 <= scale * value <= 1020) by (nonlinear_arith)
        requires
            -255 <= value <= 255,
            0 <= scale <= 4,
    ;
    assert(scale * value * value == scale * (value * value)) by (nonlinear_arith);
    assert(0 <= scale * square <= 260_100) by (nonlinear_arith)
        requires
            0 <= square <= 65_025,
            0 <= scale <= 4,
    ;
}

fn build_palette16_lut() -> (table: Vec<PaletteColor>)
    ensures
        table@ == palette_table(),
{
    let mut table: Vec<PaletteColor> = Vec::new();
    let mut i: u32 = 0;
    while i < 32_768
        invariant
            i <= 32_768,
            table.len() == i,
            forall|k: int| 0 <= k < i ==> table@[k] == #[trigger] palette_table()[k],
        decreases 32_768 - i,
    {
        let r5: u32 = i / 1024;
        let g5: u32 = i / 32 % 32;
        let b5: u32 = i % 32;
        let color = find_nearest(
            (r5 * 255 / 31) as i32,
            (g5 * 255 / 31) as i32,
            (b5 * 255 / 31) as i32,
        );
        table.push(color);
        i += 1;
    }
    assert(table@ =~= palette_table());
    table
}

// ---------------------------------------------------------------------------
// Pixels
// ---------------------------------------------------------------------------

/// A pixel in the colours of a mode; its alpha stays.
pub open spec fn quantized(color: Bgra, mode: ColorMode) -> Bgra {
    match mode {
        ColorMode::Full => color,
        ColorMode::Colors4096 => Bgra {
            b: quantized_channel(color.b, 15),
            g: quantized_channel(color.g, 15),
            r: quantized_channel(color.r, 15),
            a: color.a,
        },
        ColorMode::Colors256 => Bgra {
            b: quantized_channel(color.b, 3),
            g: quantized_channel(color.g, 7),
            r: quantized_channel(color.r, 7),
            a: color.a,
        },
        ColorMode::Colors16 => {
            let near = nearest_color(
                widened(color.r as int / 8),
                widened(color.g as int / 8),
                widened(color.b as int / 8),
            );
            Bgra { b: near.b, g: near.g, r: near.r, a: color.a }
        },
    }
}

/// The pixel made of four bytes.
pub open spec fn nth_pixel(data: Seq<u8>, index: int) -> Bgra {
    Bgra {
        b: data[index * 4],
        g: data[index * 4 + 1],
        r: data[index * 4 + 2],
        a: data[index * 4 + 3],
    }
}

/// Where a colour of five bits per channel stands in the table.
proof fn lemma_place(r5: int, g5: int, b5: int)
    requires
        0 <= r5 < 32,
        0 <= g5 < 32,
        0 <= b5 < 32,
    ensures
        0 <= r5 * 1024 + g5 * 32 + b5 < 32_768,
        (r5 * 1024 + g5 * 32 + b5) / 1024 == r5,
        (r5 * 1024 + g5 * 32 + b5) / 32 % 32 == g5,
        (r5 * 1024 + g5 * 32 + b5) % 32 == b5,
{
    let place = r5 * 1024 + g5 * 32 + b5;
    assert(place / 32 == r5 * 32 + g5);
}

/// Reduces frames to the colours of a mode.
#[derive(Debug)]
pub struct ColorQuantizer {
    palette16: Vec<PaletteColor>,
}

impl ColorQuantizer {
    #[verifier::type_invariant]
    spec fn inv(self) -> bool {
        self.palette16@ == palette_table()
    }

    /// The colours that the sixteen-colour mode looks up.
    pub closed spec fn table(&self) -> Seq<PaletteColor> {
        self.palette16@
    }

    /// A quantizer with its table filled in.
    pub fn new() -> (quantizer: ColorQuantizer)
        ensures
            quantizer.table() == palette_table(),
    {
        ColorQuantizer { palette16: build_palette16_lut() }
    }

    fn reduce(&self, color: Bgra, mode: ColorMode) -> (out: Bgra)
        ensures
            out == quantized(color, mode),
    {
        proof {
            use_type_invariant(self);
        }
        match mode {
            ColorMode::Full => color,
            ColorMode::Colors4096 => Bgra {
                b: quantize_channel(color.b, 15),
                g: quantize_channel(color.g, 15),
                r: quantize_channel(color.r, 15),
                a: color.a,
            },
            ColorMode::Colors256 => Bgra {
                b: quantize_channel(color.b, 3),
                g: quantize_channel(color.g, 7),
                r: quantize_channel(color.r, 7),
                a: color.a,
            },
            ColorMode::Colors16 => {
                let r5: usize = color.r as usize / 8;
                let g5: usize = color.g as usize / 8;
                let b5: usize = color.b as usize / 8;
                let place: usize = r5 * 1024 + g5 * 32 + b5;
                proof {
                    lemma_place(r5 as int, g5 as int, b5 as int);
                }
                let near = self.palette16[place];
                Bgra { b: near.b, g: near.g, r: near.r, a: color.a }
            },
        }
    }

    /// Reduces every whole pixel of the buffer.
    pub fn apply(&self, bgra: &mut [u8], mode: ColorMode)
        ensures
            final(bgra)@.len() == old(bgra)@.len(),
            forall|index: int|
                0 <= index < old(bgra)@.len() / 4 ==> #[trigger] nth_pixel(final(bgra)@, index)
                    == quantized(nth_pixel(old(bgra)@, index), mode),
            forall|i: int|
                old(bgra)@.len() / 4 * 4 <= i < old(bgra)@.len() ==> #[trigger] final(bgra)@[i]
                    == old(bgra)@[i],
    {
        if mode == ColorMode::Full {
            return;
        }
        let ghost before = bgra@;
        let count: usize = bgra.len() / 4;
        let mut index: usize = 0;
        while index < count
            invariant
                index <= count,
                count == before.len() / 4,
                bgra@.len() == before.len(),
                bgra@.len() == bgra.len(),
                forall|k: int|
                    0 <= k < index ==> #[trigger] nth_pixel(bgra@, k) == quantized(
                        nth_pixel(before, k),
                        mode,
                    ),
                forall|i: int| index * 4 <= i < before.len() ==> #[trigger] bgra@[i] == before[i],
            decreases count - index,
        {
            let at: usize = index * 4;
            let ghost current = bgra@;
            let color = Bgra { b: bgra[at], g: bgra[at + 1], r: bgra[at + 2], a: bgra[at + 3] };
            let reduced = self.reduce(color, mode);
            bgra[at] = reduced.b;
            bgra[at + 1] = reduced.g;
            bgra[at + 2] = reduced.r;
            proof {
                assert(nth_pixel(before, index as int) == nth_pixel(current, index as int));
                assert(nth_pixel(bgra@, index as int) == quantized(
                    nth_pixel(before, index as int),
                    mode,
                ));
                assert forall|k: int| 0 <= k < index implies #[trigger] nth_pixel(bgra@, k) == quantized(
                    nth_pixel(before, k),
                    mode,
                ) by {
                    assert(nth_pixel(bgra@, k) == nth_pixel(current, k));
                }
            }
            index += 1;
        }
    }
}

// ---------------------------------------------------------------------------
// Laws
// ---------------------------------------------------------------------------

/// Reducing never changes the alpha channel.
pub proof fn law_alpha_stays(color: Bgra, mode: ColorMode)
    ensures
        quantized(color, mode).a == color.a,
{
}

/// A pixel reduced to sixteen colours is one of them.
pub proof fn law_sixteen_colors(color: Bgra)
    ensures
        exists|index: int|
            0 <= index < 16 && #[trigger] palette(index) == bgr(
                quantized(color, ColorMode::Colors16).b,
                quantized(color, ColorMode::Colors16).g,
                quantized(color, ColorMode::Colors16).r,
            ),
{
    let r = widened(color.r as int / 8);
    let g = widened(color.g as int / 8);
    let b = widened(color.b as int / 8);
    lemma_nearest_exists(r, g, b, 16);
    let index = choose|index: int| is_nearest_of(index, r, g, b, 16);
    assert(is_nearest(index, r, g, b));
    lemma_nearest_unique(index, r, g, b);
}

spec fn is_nearest_of(index: int, r: int, g: int, b: int, count: int) -> bool {
    &&& 0 <= index < count
    &&& forall|other: int|
        0 <= other < count ==> distance(r, g, b, palette(index)) <= #[trigger] distance(
            r,
            g,
            b,
            palette(other),
        )
    &&& forall|other: int|
        0 <= other < index ==> distance(r, g, b, palette(index)) < #[trigger] distance(
            r,
            g,
            b,
            palette(other),
        )
}

proof fn lemma_nearest_exists(r: int, g: int, b: int, count: int)
    requires
        1 <= count <= 16,
    ensures
        exists|index: int| is_nearest_of(index, r, g, b, count),
    decreases count,
{
    if count == 1 {
        assert(is_nearest_of(0, r, g, b, 1));
    } else {
        let last = count - 1;
        lemma_nearest_exists(r, g, b, last);
        let index = choose|index: int| is_nearest_of(index, r, g, b, last);
        if distance(r, g, b, palette(last)) < distance(r, g, b, palette(index)) {
            assert(is_nearest_of(last, r, g, b, count));
        } else {
            assert(is_nearest_of(index, r, g, b, count));
        }
    }
}

/// A palette colour is the nearest one to its own five-bit form.
proof fn lemma_palette_is_nearest_to_itself(index: int)
    requires
        0 <= index < 16,
    ensures
        nearest_color(
            widened(palette(index).r as int / 8),
            widened(palette(index).g as int / 8),
            widened(palette(index).b as int / 8),
        ) == palette(index),
{
    let color = palette(index);
    let r = widened(color.r as int / 8);
    let g = widened(color.g as int / 8);
    let b = widened(color.b as int / 8);
    let own = distance(r, g, b, color);
    assert(-5 <= r - color.r <= 5 && -5 <= g - color.g <= 5 && -5 <= b - color.b <= 5);
    assert(own <= 175) by {
        lemma_small_square(r - color.r);
        lemma_small_square(g - color.g);
        lemma_small_square(b - color.b);
        assert(2 * (r - color.r) * (r - color.r) == 2 * ((r - color.r) * (r - color.r))) by (nonlinear_arith);
        assert(4 * (g - color.g) * (g - color.g) == 4 * ((g - color.g) * (g - color.g))) by (nonlinear_arith);
    }
    assert forall|other: int| 0 <= other < 16 && other != index implies own < #[trigger] distance(
        r,
        g,
        b,
        palette(other),
    ) by {
        let far = palette(other);
        assert(far != color);
        let dr = r - far.r;
        let dg = g - far.g;
        let db = b - far.b;
        lemma_square_sign(dr);
        lemma_square_sign(dg);
        lemma_square_sign(db);
        assert(2 * dr * dr == 2 * (dr * dr)) by (nonlinear_arith);
        assert(4 * dg * dg == 4 * (dg * dg)) by (nonlinear_arith);
        assert(dr >= 58 || dr <= -58 || dg >= 58 || dg <= -58 || db >= 58 || db <= -58);
    }
    assert(is_nearest(index, r, g, b));
    lemma_nearest_unique(index, r, g, b);
}

proof fn lemma_small_square(value: int)
    requires
        -5 <= value <= 5,
    ensures
        0 <= value * value <= 25,
{
    assert(0 <= value * value <= 25) by (nonlinear_arith)
        requires
            -5 <= value <= 5,
    ;
}

proof fn lemma_square_sign(value: int)
    ensures
        0 <= value * value,
        value >= 58 || value <= -58 ==> value * value >= 3364,
{
    assert(0 <= value * value) by (nonlinear_arith);
    if value >= 58 {
        assert(value * value >= 3364) by (nonlinear_arith)
            requires
                value >= 58,
        ;
    } else if value <= -58 {
        assert(value * value >= 3364) by (nonlinear_arith)
            requires
                value <= -58,
        ;
    }
}

/// Reducing a reduced pixel again changes nothing, in any mode.
pub proof fn law_reduction_is_idempotent(color: Bgra, mode: ColorMode)
    ensures
        quantized(quantized(color, mode), mode) == quantized(color, mode),
{
    match mode {
        ColorMode::Full => {},
        ColorMode::Colors4096 => {
            law_channel_levels(color.b, 15);
            law_channel_levels(color.g, 15);
            law_channel_levels(color.r, 15);
        },
        ColorMode::Colors256 => {
            law_channel_levels(color.b, 3);
            law_channel_levels(color.g, 7);
            law_channel_levels(color.r, 7);
        },
        ColorMode::Colors16 => {
            law_sixteen_colors(color);
            let out = quantized(color, mode);
            let index = choose|index: int| 0 <= index < 16 && #[trigger] palette(index) == bgr(out.b, out.g, out.r);
            lemma_palette_is_nearest_to_itself(index);
        },
    }
}

} // verus!
