//! Planar frames: their layout, changes between them, luma error and the way back
//! to BGRA. The caller runs the colour conversion and the codecs.
use vstd::prelude::*;
use vstd::string::*;

use crate::bitmap::{bitmap_bytes, encode_bitmap};
use crate::netprobe::wire::ceil_div;
use crate::screen::corpus::{saturated, PixelFormat};
use crate::screen::render::{
    is_frame, lemma_pixel_inside, lemma_pixels_distinct, pixel, pixel_offset, Bgra,
};
use crate::text::{push_signed, signed_decimal};

verus! {

/// Why planes cannot be laid out, converted, compared or written.
#[derive(Clone, Copy, Debug, PartialEq, Eq, Structural)]
pub enum YuvError {
    Layout,
    Format,
    YOverflow,
    UOverflow,
    VOverflow,
    StrideOverflow,
    SourceSize,
    WidthTooLarge,
    HeightTooLarge,
    StrideTooLarge,
    UnsupportedFormat,
    /// The conversion reported a code.
    Conversion(i32),
    ActiveMapSize,
    PreviousSize,
    LumaTooSmall,
    DecodedLayout,
    DecodedStride,
    HwLayout,
    HwLumaTooSmall,
    DecodedImage,
    DecodedSizeOverflow,
    HwWidth,
    HwHeight,
    HwImage,
    HwFormat,
    BmpRowOverflow,
    BmpSource,
    BmpFileOverflow,
    BmpWidth,
    BmpHeight,
}

/// The class of a [`YuvError`], as the standard library names it.
#[derive(Clone, Copy, Debug, PartialEq, Eq, Structural)]
pub enum YuvErrorKind {
    InvalidData,
    Other,
}

impl YuvError {
    /// The class of the error.
    pub open spec fn class(self) -> YuvErrorKind {
        match self {
            YuvError::Conversion(_) => YuvErrorKind::Other,
            _ => YuvErrorKind::InvalidData,
        }
    }

    pub fn kind(&self) -> (kind: YuvErrorKind)
        ensures
            kind == self.class(),
    {
        match self {
            YuvError::Conversion(_) => YuvErrorKind::Other,
            _ => YuvErrorKind::InvalidData,
        }
    }

    /// The error in words.
    pub open spec fn words(self) -> Seq<char> {
        match self {
            YuvError::Layout => "invalid encoder YUV layout"@,
            YuvError::Format => "benchmark requires I420, I444, or NV12"@,
            YuvError::YOverflow => "Y plane size overflow"@,
            YuvError::UOverflow => "U plane size overflow"@,
            YuvError::VOverflow => "V plane size overflow"@,
            YuvError::StrideOverflow => "BGRA stride overflow"@,
            YuvError::SourceSize => "BGRA source has the wrong size"@,
            YuvError::WidthTooLarge => "width does not fit libyuv"@,
            YuvError::HeightTooLarge => "height does not fit libyuv"@,
            YuvError::StrideTooLarge => "stride does not fit libyuv"@,
            YuvError::UnsupportedFormat => "unsupported benchmark YUV format"@,
            YuvError::Conversion(code) => "libyuv conversion failed with code "@ + signed_decimal(
                code as int,
            ),
            YuvError::ActiveMapSize => "active-map buffer has the wrong size"@,
            YuvError::PreviousSize => "previous YUV frame has the wrong size"@,
            YuvError::LumaTooSmall => "decoded luma plane is too small"@,
            YuvError::DecodedLayout => "decoded frame layout does not match source"@,
            YuvError::DecodedStride => "decoded luma stride is too small"@,
            YuvError::HwLayout => "decoded hardware frame layout does not match source"@,
            YuvError::HwLumaTooSmall => "decoded hardware luma plane is too small"@,
            YuvError::DecodedImage => "decoded image cannot be written"@,
            YuvError::DecodedSizeOverflow => "decoded BMP size overflow"@,
            YuvError::HwWidth => "invalid frame width"@,
            YuvError::HwHeight => "invalid frame height"@,
            YuvError::HwImage => "decoded hardware image cannot be written"@,
            YuvError::HwFormat => "unsupported decoded hardware pixel format"@,
            YuvError::BmpRowOverflow => "BMP row size overflow"@,
            YuvError::BmpSource => "BMP source has the wrong size"@,
            YuvError::BmpFileOverflow => "BMP file size overflow"@,
            YuvError::BmpWidth => "BMP width is too large"@,
            YuvError::BmpHeight => "BMP height is too large"@,
        }
    }

    /// The error in words.
    pub fn message(&self) -> (text: String)
        ensures
            text@ == self.words(),
    {
        match self {
            YuvError::Layout => "invalid encoder YUV layout".to_owned(),
            YuvError::Format => "benchmark requires I420, I444, or NV12".to_owned(),
            YuvError::YOverflow => "Y plane size overflow".to_owned(),
            YuvError::UOverflow => "U plane size overflow".to_owned(),
            YuvError::VOverflow => "V plane size overflow".to_owned(),
            YuvError::StrideOverflow => "BGRA stride overflow".to_owned(),
            YuvError::SourceSize => "BGRA source has the wrong size".to_owned(),
            YuvError::WidthTooLarge => "width does not fit libyuv".to_owned(),
            YuvError::HeightTooLarge => "height does not fit libyuv".to_owned(),
            YuvError::StrideTooLarge => "stride does not fit libyuv".to_owned(),
            YuvError::UnsupportedFormat => "unsupported benchmark YUV format".to_owned(),
            YuvError::Conversion(code) => {
                let mut text = "libyuv conversion failed with code ".to_owned();
                push_signed(&mut text, *code as i64);
                text
            },
            YuvError::ActiveMapSize => "active-map buffer has the wrong size".to_owned(),
            YuvError::PreviousSize => "previous YUV frame has the wrong size".to_owned(),
            YuvError::LumaTooSmall => "decoded luma plane is too small".to_owned(),
            YuvError::DecodedLayout => "decoded frame layout does not match source".to_owned(),
            YuvError::DecodedStride => "decoded luma stride is too small".to_owned(),
            YuvError::HwLayout => "decoded hardware frame layout does not match source".to_owned(),
            YuvError::HwLumaTooSmall => "decoded hardware luma plane is too small".to_owned(),
            YuvError::DecodedImage => "decoded image cannot be written".to_owned(),
            YuvError::DecodedSizeOverflow => "decoded BMP size overflow".to_owned(),
            YuvError::HwWidth => "invalid frame width".to_owned(),
            YuvError::HwHeight => "invalid frame height".to_owned(),
            YuvError::HwImage => "decoded hardware image cannot be written".to_owned(),
            YuvError::HwFormat => "unsupported decoded hardware pixel format".to_owned(),
            YuvError::BmpRowOverflow => "BMP row size overflow".to_owned(),
            YuvError::BmpSource => "BMP source has the wrong size".to_owned(),
            YuvError::BmpFileOverflow => "BMP file size overflow".to_owned(),
            YuvError::BmpWidth => "BMP width is too large".to_owned(),
            YuvError::BmpHeight => "BMP height is too large".to_owned(),
        }
    }
}

// ---------------------------------------------------------------------------
// Layout
// ---------------------------------------------------------------------------

/// How an encoder wants its planes.
#[derive(Debug)]
pub struct EncodeYuvFormat {
    pub pixfmt: PixelFormat,
    pub w: usize,
    pub h: usize,
    pub stride: Vec<usize>,
    pub u: usize,
    pub v: usize,
}

/// The larger of two numbers.
pub open spec fn larger(a: int, b: int) -> int {
    if a < b {
        b
    } else {
        a
    }
}

/// The rows of the chroma planes.
pub open spec fn chroma_rows(format: EncodeYuvFormat) -> int {
    if format.pixfmt == PixelFormat::I444 {
        format.h as int
    } else {
        ceil_div(format.h as int, 2)
    }
}

/// Where a plane ends that starts at `start`.
pub open spec fn plane_end(start: usize, stride: usize, rows: int) -> int {
    start + saturated(stride as int, rows)
}

/// The bytes that the planes take, or why they cannot be laid out.
pub open spec fn layout_len(format: EncodeYuvFormat) -> Result<int, YuvError> {
    let planes: int = if format.pixfmt == PixelFormat::Nv12 { 2 } else { 3 };
    let rows = chroma_rows(format);
    if format.stride@.len() < planes || format.w == 0 || format.h == 0 {
        Err(YuvError::Layout)
    } else if format.pixfmt != PixelFormat::I420 && format.pixfmt != PixelFormat::I444
        && format.pixfmt != PixelFormat::Nv12 {
        Err(YuvError::Format)
    } else if format.stride@[0] * format.h > usize::MAX {
        Err(YuvError::YOverflow)
    } else if plane_end(format.u, format.stride@[1], rows) > usize::MAX {
        Err(YuvError::UOverflow)
    } else {
        let yu = larger(
            format.stride@[0] * format.h,
            plane_end(format.u, format.stride@[1], rows),
        );
        if format.pixfmt == PixelFormat::Nv12 {
            Ok(yu)
        } else if plane_end(format.v, format.stride@[2], rows) > usize::MAX {
            Err(YuvError::VOverflow)
        } else {
            Ok(larger(yu, plane_end(format.v, format.stride@[2], rows)))
        }
    }
}

fn saturating_product(a: usize, b: usize) -> (product: usize)
    ensures
        product == saturated(a as int, b as int),
{
    match a.checked_mul(b) {
        Some(product) => product,
        None => usize::MAX,
    }
}

fn max_of(a: usize, b: usize) -> (max: usize)
    ensures
        max == larger(a as int, b as int),
{
    if a < b {
        b
    } else {
        a
    }
}

/// A number divided by two or sixteen, rounded up.
fn blocks(value: usize, size: usize) -> (count: usize)
    requires
        size == 2 || size == 16,
    ensures
        count == ceil_div(value as int, size as int),
{
    if size == 2 {
        value / 2 + value % 2
    } else if value % 16 == 0 {
        value / 16
    } else {
        value / 16 + 1
    }
}

/// A planar frame.
#[derive(Debug)]
pub struct YuvBuffer {
    pub format: EncodeYuvFormat,
    pub data: Vec<u8>,
}

/// What the colour conversion is called with.
#[derive(Clone, Copy, Debug, PartialEq, Eq, Structural)]
pub struct ConversionPlan {
    pub pixfmt: PixelFormat,
    pub source_stride: i32,
    pub y_stride: i32,
    pub u_offset: usize,
    pub u_stride: i32,
    pub v_offset: usize,
    /// Zero where the format has no third plane.
    pub v_stride: i32,
    pub width: i32,
    pub height: i32,
}

/// The low 32 bits of a number, as a signed number.
pub open spec fn truncated32(value: int) -> int {
    let low = value % 0x1_0000_0000;
    if low < 0x8000_0000 {
        low
    } else {
        low - 0x1_0000_0000
    }
}

fn truncate32(value: usize) -> (out: i32)
    ensures
        out == truncated32(value as int),
{
    let low: i64 = (value as u64 % 0x1_0000_0000) as i64;
    if low < 0x8000_0000 {
        low as i32
    } else {
        (low - 0x1_0000_0000) as i32
    }
}

/// Why a frame of `len` bytes cannot be converted, if so.
pub open spec fn conversion_fault(format: EncodeYuvFormat, len: nat) -> Option<YuvError> {
    if format.w * 4 > usize::MAX {
        Some(YuvError::StrideOverflow)
    } else if len != saturated(format.w * 4, format.h as int) {
        Some(YuvError::SourceSize)
    } else if format.w > i32::MAX {
        Some(YuvError::WidthTooLarge)
    } else if format.h > i32::MAX {
        Some(YuvError::HeightTooLarge)
    } else if format.w * 4 > i32::MAX {
        Some(YuvError::StrideTooLarge)
    } else if format.pixfmt != PixelFormat::I420 && format.pixfmt != PixelFormat::I444
        && format.pixfmt != PixelFormat::Nv12 {
        Some(YuvError::UnsupportedFormat)
    } else {
        None
    }
}

impl YuvBuffer {
    /// An all-zero frame in the layout.
    pub fn new(format: EncodeYuvFormat) -> (res: Result<YuvBuffer, YuvError>)
        ensures
            match res {
                Ok(buffer) => {
                    &&& layout_len(format) == Ok::<int, YuvError>(buffer.data@.len() as int)
                    &&& buffer.format == format
                    &&& buffer.data@ == Seq::new(buffer.data@.len(), |i: int| 0u8)
                },
                Err(err) => layout_len(format) == Err::<int, YuvError>(err),
            },
    {
        let planes: usize = if format.pixfmt == PixelFormat::Nv12 { 2 } else { 3 };
        if format.stride.len() < planes || format.w == 0 || format.h == 0 {
            return Err(YuvError::Layout);
        }
        let chroma_height: usize = match format.pixfmt {
            PixelFormat::I420 => blocks(format.h, 2),
            PixelFormat::I444 => format.h,
            PixelFormat::Nv12 => blocks(format.h, 2),
            _ => {
                return Err(YuvError::Format);
            },
        };
        let y_end: usize = match format.stride[0].checked_mul(format.h) {
            Some(end) => end,
            None => {
                return Err(YuvError::YOverflow);
            },
        };
        let u_end: usize = match format.u.checked_add(
            saturating_product(format.stride[1], chroma_height),
        ) {
            Some(end) => end,
            None => {
                return Err(YuvError::UOverflow);
            },
        };
        let mut len: usize = max_of(y_end, u_end);
        if format.pixfmt != PixelFormat::Nv12 {
            let v_end: usize = match format.v.checked_add(
                saturating_product(format.stride[2], chroma_height),
            ) {
                Some(end) => end,
                None => {
                    return Err(YuvError::VOverflow);
                },
            };
            len = max_of(len, v_end);
        }
        let data: Vec<u8> = vec![0u8; len];
        assert(data@ =~= Seq::new(data@.len(), |i: int| 0u8));
        Ok(YuvBuffer { format, data })
    }

    /// Checks that a BGRA frame can be converted into this one; returns what the
    /// conversion is called with.
    pub fn convert_bgra(&self, bgra: &[u8]) -> (res: Result<ConversionPlan, YuvError>)
        requires
            self.format.stride@.len() >= if self.format.pixfmt == PixelFormat::Nv12 {
                2int
            } else {
                3int
            },
        ensures
            match res {
                Ok(plan) => {
                    &&& conversion_fault(self.format, bgra@.len()) is None
                    &&& plan.pixfmt == self.format.pixfmt
                    &&& plan.width == self.format.w
                    &&& plan.height == self.format.h
                    &&& plan.source_stride == self.format.w * 4
                    &&& plan.y_stride == truncated32(self.format.stride@[0] as int)
                    &&& plan.u_offset == self.format.u
                    &&& plan.u_stride == truncated32(self.format.stride@[1] as int)
                    &&& plan.v_offset == self.format.v
                    &&& plan.v_stride == if self.format.pixfmt == PixelFormat::Nv12 {
                        0
                    } else {
                        truncated32(self.format.stride@[2] as int)
                    }
                },
                Err(err) => conversion_fault(self.format, bgra@.len()) == Some(err),
            },
    {
        let source_stride: usize = match self.format.w.checked_mul(4) {
            Some(stride) => stride,
            None => {
                return Err(YuvError::StrideOverflow);
            },
        };
        if bgra.len() != saturating_product(source_stride, self.format.h) {
            return Err(YuvError::SourceSize);
        }
        let limit: u64 = i32::MAX as u64;
        if self.format.w as u64 > limit {
            return Err(YuvError::WidthTooLarge);
        }
        if self.format.h as u64 > limit {
            return Err(YuvError::HeightTooLarge);
        }
        if source_stride as u64 > limit {
            return Err(YuvError::StrideTooLarge);
        }
        let v_stride: i32 = match self.format.pixfmt {
            PixelFormat::I420 | PixelFormat::I444 => truncate32(self.format.stride[2]),
            PixelFormat::Nv12 => 0,
            _ => {
                return Err(YuvError::UnsupportedFormat);
            },
        };
        Ok(
            ConversionPlan {
                pixfmt: self.format.pixfmt,
                source_stride: source_stride as i32,
                y_stride: truncate32(self.format.stride[0]),
                u_offset: self.format.u,
                u_stride: truncate32(self.format.stride[1]),
                v_offset: self.format.v,
                v_stride,
                width: self.format.w as i32,
                height: self.format.h as i32,
            },
        )
    }
}

/// What the code that a conversion returned means.
pub fn conversion_result(code: i32) -> (res: Result<(), YuvError>)
    ensures
        res == if code == 0 {
            Ok::<(), YuvError>(())
        } else {
            Err(YuvError::Conversion(code))
        },
{
    if code != 0 {
        return Err(YuvError::Conversion(code));
    }
    Ok(())
}

// ---------------------------------------------------------------------------
// Active maps
// ---------------------------------------------------------------------------

/// Whether two luma samples differ by more than one.
pub open spec fn differs(a: u8, b: u8) -> bool {
    a > b + 1 || b > a + 1
}

/// Whether a luma sample of a frame has changed at a place.
pub open spec fn changed_at(data: Seq<u8>, previous: Seq<u8>, stride: int, x: int, y: int) -> bool {
    differs(data[y * stride + x], previous[y * stride + x])
}

/// Whether a block of sixteen by sixteen samples, cut off at the frame's edge,
/// holds a sample that has changed.
pub open spec fn block_changed(
    buffer: YuvBuffer,
    previous: Seq<u8>,
    block_x: int,
    block_y: int,
) -> bool {
    exists|x: int, y: int|
        block_x * 16 <= x < block_x * 16 + 16 && x < buffer.format.w && block_y * 16 <= y < block_y
            * 16 + 16 && y < buffer.format.h && #[trigger] changed_at(
            buffer.data@,
            previous,
            buffer.format.stride@[0] as int,
            x,
            y,
        )
}

/// How many blocks of a map are active.
pub open spec fn active_count(map: Seq<u8>) -> nat
    decreases map.len(),
{
    if map.len() == 0 {
        0
    } else {
        active_count(map.drop_last()) + if map.last() != 0 { 1nat } else { 0nat }
    }
}

pub proof fn lemma_active_count_bound(map: Seq<u8>)
    ensures
        active_count(map) <= map.len(),
    decreases map.len(),
{
    if map.len() > 0 {
        lemma_active_count_bound(map.drop_last());
    }
}

pub proof fn lemma_active_count_all(map: Seq<u8>)
    requires
        forall|i: int| 0 <= i < map.len() ==> map[i] != 0,
    ensures
        active_count(map) == map.len(),
    decreases map.len(),
{
    if map.len() > 0 {
        let head = map.drop_last();
        assert(forall|i: int| 0 <= i < head.len() ==> head[i] == map[i]);
        lemma_active_count_all(head);
    }
}

/// The columns of a frame's active map.
pub open spec fn map_columns(format: EncodeYuvFormat) -> int {
    ceil_div(format.w as int, 16)
}

/// The rows of a frame's active map.
pub open spec fn map_rows(format: EncodeYuvFormat) -> int {
    ceil_div(format.h as int, 16)
}

/// Whether the visible luma samples lie in the frame's bytes.
pub open spec fn luma_inside(buffer: YuvBuffer) -> bool {
    &&& buffer.format.stride@.len() > 0
    &&& buffer.format.h > 0 ==> (buffer.format.h - 1) * buffer.format.stride@[0] + buffer.format.w
        <= buffer.data@.len()
}

proof fn lemma_luma_row(h: int, stride: int, w: int, len: int, y: int)
    requires
        0 <= y < h,
        0 <= stride,
        (h - 1) * stride + w <= len,
    ensures
        0 <= y * stride,
        y * stride + w <= len,
{
    assert(0 <= y * stride <= (h - 1) * stride) by (nonlinear_arith)
        requires
            0 <= y <= h - 1,
            0 <= stride,
    ;
}

impl YuvBuffer {
    fn has_changed(&self, previous: &[u8], block_x: usize, block_y: usize) -> (changed: bool)
        requires
            luma_inside(*self),
            previous@.len() == self.data@.len(),
            block_x < map_columns(self.format),
            block_y < map_rows(self.format),
        ensures
            changed == block_changed(*self, previous@, block_x as int, block_y as int),
    {
        let w: usize = self.format.w;
        let h: usize = self.format.h;
        let stride: usize = self.format.stride[0];
        let left: usize = block_x * 16;
        let right: usize = if w - left < 16 { w } else { left + 16 };
        let top: usize = block_y * 16;
        let bottom: usize = if h - top < 16 { h } else { top + 16 };
        let mut y: usize = top;
        while y < bottom
            invariant
                top <= y <= bottom <= h,
                left <= right <= w,
                w == self.format.w,
                h == self.format.h,
                luma_inside(*self),
                stride == self.format.stride@[0],
                previous@.len() == self.data@.len(),
                left == block_x * 16,
                top == block_y * 16,
                right == if w - left < 16 { w as int } else { left + 16 },
                bottom == if h - top < 16 { h as int } else { top + 16 },
                forall|px: int, py: int|
                    left <= px < right && top <= py < y ==> !(#[trigger] changed_at(
                        self.data@,
                        previous@,
                        stride as int,
                        px,
                        py,
                    )),
            decreases bottom - y,
        {
            proof {
                lemma_luma_row(
                    h as int,
                    stride as int,
                    w as int,
                    self.data@.len() as int,
                    y as int,
                );
                assert(self.data@.len() == self.data.len());
            }
            let row: usize = y * stride;
            let mut x: usize = left;
            while x < right
                invariant
                    left <= x <= right <= w,
                    top <= y < bottom <= h,
                    w == self.format.w,
                    h == self.format.h,
                    stride == self.format.stride@[0],
                    previous@.len() == self.data@.len(),
                    row == y * stride,
                    row + w <= self.data.len(),
                    left == block_x * 16,
                    top == block_y * 16,
                    right == if w - left < 16 { w as int } else { left + 16 },
                    bottom == if h - top < 16 { h as int } else { top + 16 },
                    forall|px: int, py: int|
                        left <= px < right && top <= py < y ==> !(#[trigger] changed_at(
                            self.data@,
                            previous@,
                            stride as int,
                            px,
                            py,
                        )),
                    forall|px: int|
                        left <= px < x ==> !(#[trigger] changed_at(
                            self.data@,
                            previous@,
                            stride as int,
                            px,
                            y as int,
                        )),
                decreases right - x,
            {
                let a: u8 = self.data[row + x];
                let b: u8 = previous[row + x];
                let gap: u8 = if a < b { b - a } else { a - b };
                if gap > 1 {
                    assert(changed_at(self.data@, previous@, stride as int, x as int, y as int));
                    return true;
                }
                x += 1;
            }
            y += 1;
        }
        false
    }

    /// Marks the blocks that have changed since the previous frame, all of them
    /// where there is none; returns how many are marked.
    pub fn update_active_map(&self, previous: Option<&[u8]>, active_map: &mut [u8]) -> (res: Result<
        usize,
        YuvError,
    >)
        requires
            previous matches Some(frame) && frame@.len() == self.data@.len() && old(active_map)@.len()
                == map_columns(self.format) * map_rows(self.format) ==> luma_inside(*self),
        ensures
            final(active_map)@.len() == old(active_map)@.len(),
            match res {
                Ok(count) => {
                    &&& old(active_map)@.len() == map_columns(self.format) * map_rows(self.format)
                    &&& previous matches Some(frame) ==> frame@.len() == self.data@.len()
                    &&& count == active_count(final(active_map)@)
                    &&& forall|x: int, y: int|
                        0 <= x < map_columns(self.format) && 0 <= y < map_rows(self.format)
                            ==> #[trigger] final(active_map)@[y * map_columns(self.format) + x] == match previous {
                            Some(frame) => if block_changed(*self, frame@, x, y) {
                                1u8
                            } else {
                                0u8
                            },
                            None => 1u8,
                        }
                },
                Err(err) => {
                    &&& final(active_map)@ == old(active_map)@
                    &&& if old(active_map)@.len() != map_columns(self.format) * map_rows(
                        self.format,
                    ) {
                        err == YuvError::ActiveMapSize
                    } else {
                        &&& previous is Some
                        &&& previous->0@.len() != self.data@.len()
                        &&& err == YuvError::PreviousSize
                    }
                },
            },
    {
        let cols: usize = blocks(self.format.w, 16);
        let rows: usize = blocks(self.format.h, 16);
        assert(active_map@.len() == active_map.len());
        let size: usize = match cols.checked_mul(rows) {
            Some(size) => size,
            None => {
                return Err(YuvError::ActiveMapSize);
            },
        };
        if active_map.len() != size {
            return Err(YuvError::ActiveMapSize);
        }
        let frame = match previous {
            None => {
                let mut i: usize = 0;
                while i < active_map.len()
                    invariant
                        i <= active_map.len(),
                        active_map@.len() == size,
                        size == old(active_map)@.len(),
                        forall|k: int| 0 <= k < i ==> active_map@[k] == 1,
                    decreases active_map.len() - i,
                {
                    active_map[i] = 1;
                    i += 1;
                }
                proof {
                    lemma_active_count_all(active_map@);
                    assert forall|x: int, y: int| 0 <= x < cols && 0 <= y < rows implies #[trigger] active_map@[y
                        * cols + x] == 1 by {
                        lemma_place(x, y, cols as int, rows as int);
                    }
                }
                return Ok(size);
            },
            Some(frame) => frame,
        };
        if frame.len() != self.data.len() {
            return Err(YuvError::PreviousSize);
        }
        let ghost before = active_map@;
        let mut active_blocks: usize = 0;
        let mut block_y: usize = 0;
        proof {
            assert(active_map@.take(0) =~= seq![]);
        }
        while block_y < rows
            invariant
                block_y <= rows,
                cols == map_columns(self.format),
                rows == map_rows(self.format),
                cols * rows == size,
                active_map@.len() == size,
                size == old(active_map)@.len(),
                luma_inside(*self),
                frame@.len() == self.data@.len(),
                0 <= block_y * cols <= size,
                active_blocks == active_count(active_map@.take(block_y * cols)),
                forall|x: int, y: int|
                    0 <= x < cols && 0 <= y < block_y ==> #[trigger] active_map@[y * cols + x]
                        == if block_changed(*self, frame@, x, y) {
                        1u8
                    } else {
                        0u8
                    },
            decreases rows - block_y,
        {
            let mut block_x: usize = 0;
            while block_x < cols
                invariant
                    block_x <= cols,
                    block_y < rows,
                    cols == map_columns(self.format),
                    rows == map_rows(self.format),
                    cols * rows == size,
                    active_map@.len() == size,
                    size == old(active_map)@.len(),
                    luma_inside(*self),
                    frame@.len() == self.data@.len(),
                    active_blocks == active_count(active_map@.take(block_y * cols + block_x)),
                    forall|x: int, y: int|
                        0 <= x < cols && 0 <= y < rows && (y < block_y || (y == block_y && x < block_x))
                            ==> #[trigger] active_map@[y * cols + x] == if block_changed(
                            *self,
                            frame@,
                            x,
                            y,
                        ) {
                            1u8
                        } else {
                            0u8
                        },
                decreases cols - block_x,
            {
                let changed = self.has_changed(frame, block_x, block_y);
                proof {
                    lemma_place(block_x as int, block_y as int, cols as int, rows as int);
                    assert(0 <= block_y * cols) by (nonlinear_arith)
                        requires
                            0 <= block_y,
                            0 <= cols,
                    ;
                    assert(active_map@.len() == active_map.len());
                }
                let index: usize = block_y * cols + block_x;
                let ghost current = active_map@;
                active_map[index] = if changed { 1 } else { 0 };
                proof {
                    assert(active_map@.take(index + 1).drop_last() =~= current.take(index as int));
                    assert(active_map@.take(index + 1).last() == active_map@[index as int]);
                    lemma_active_count_bound(current.take(index as int));
                    assert forall|x: int, y: int|
                        0 <= x < cols && 0 <= y < rows && (y < block_y || (y == block_y && x < block_x
                            + 1)) implies #[trigger] active_map@[y * cols + x] == if block_changed(
                        *self,
                        frame@,
                        x,
                        y,
                    ) {
                        1u8
                    } else {
                        0u8
                    } by {
                        lemma_place(x, y, cols as int, rows as int);
                        if x != block_x || y != block_y {
                            lemma_places_distinct(
                                x,
                                y,
                                block_x as int,
                                block_y as int,
                                cols as int,
                            );
                            assert(active_map@[y * cols + x] == current[y * cols + x]);
                        }
                    }
                }
                if changed {
                    active_blocks = active_blocks + 1;
                }
                block_x += 1;
            }
            proof {
                assert((block_y + 1) * cols == block_y * cols + cols) by (nonlinear_arith);
                assert((block_y + 1) * cols <= cols * rows) by (nonlinear_arith)
                    requires
                        block_y + 1 <= rows,
                        0 <= cols,
                ;
            }
            block_y += 1;
        }
        proof {
            assert(rows * cols == cols * rows) by (nonlinear_arith);
            assert(active_map@.take(size as int) =~= active_map@);
        }
        Ok(active_blocks)
    }
}

/// A place of a map lies inside it.
pub proof fn lemma_place(x: int, y: int, cols: int, rows: int)
    requires
        0 <= x < cols,
        0 <= y < rows,
    ensures
        0 <= y * cols + x < cols * rows,
{
    assert(0 <= y * cols) by (nonlinear_arith)
        requires
            0 <= y,
            0 <= cols,
    ;
    assert(y * cols + cols <= cols * rows) by (nonlinear_arith)
        requires
            y + 1 <= rows,
            0 <= cols,
    ;
}

/// Different places of a map have different indexes.
pub proof fn lemma_places_distinct(x: int, y: int, other_x: int, other_y: int, cols: int)
    requires
        0 <= x < cols,
        0 <= other_x < cols,
        x != other_x || y != other_y,
    ensures
        y * cols + x != other_y * cols + other_x,
{
    if y < other_y {
        assert(y * cols + cols <= other_y * cols) by (nonlinear_arith)
            requires
                y + 1 <= other_y,
                0 < cols,
        ;
    } else if other_y < y {
        assert(other_y * cols + cols <= y * cols) by (nonlinear_arith)
            requires
                other_y + 1 <= y,
                0 < cols,
        ;
    }
}

/// A frame that has not changed has no active block.
pub proof fn law_unchanged_frame_is_inactive(buffer: YuvBuffer, block_x: int, block_y: int)
    ensures
        !block_changed(buffer, buffer.data@, block_x, block_y),
{
}

// ---------------------------------------------------------------------------
// Luma error
// ---------------------------------------------------------------------------

/// The square of the difference of two samples.
pub open spec fn squared(a: u8, b: u8) -> int {
    (a - b) * (a - b)
}

/// The error of the first `count` samples of a row.
pub open spec fn row_error(
    source: Seq<u8>,
    source_at: int,
    decoded: Seq<u8>,
    decoded_at: int,
    count: nat,
) -> int
    decreases count,
{
    if count == 0 {
        0
    } else {
        row_error(source, source_at, decoded, decoded_at, (count - 1) as nat) + squared(
            source[source_at + count - 1],
            decoded[decoded_at + count - 1],
        )
    }
}

/// The error of the first `rows` rows of a plane.
pub open spec fn plane_error(
    source: YuvBuffer,
    decoded: Seq<u8>,
    decoded_stride: int,
    rows: nat,
) -> int
    decreases rows,
{
    if rows == 0 {
        0
    } else {
        plane_error(source, decoded, decoded_stride, (rows - 1) as nat) + row_error(
            source.data@,
            (rows - 1) * source.format.stride@[0],
            decoded,
            (rows - 1) * decoded_stride,
            source.format.w as nat,
        )
    }
}

proof fn lemma_squared(a: u8, b: u8)
    ensures
        0 <= squared(a, b) <= 65_025,
{
    let d = a - b;
    assert(0 <= d * d <= 65_025) by (nonlinear_arith)
        requires
            -255 <= d <= 255,
    ;
}

/// The error of luma planes, summed over frames.
#[derive(Debug)]
pub struct QualityAccumulator {
    squared_error_y: u128,
    samples_y: u128,
}

impl QualityAccumulator {
    /// A sample's error is at most the square of 255.
    #[verifier::type_invariant]
    spec fn inv(self) -> bool {
        self.squared_error_y <= 65_025 * self.samples_y
    }

    /// The sum of the squared differences.
    pub closed spec fn error(&self) -> int {
        self.squared_error_y as int
    }

    /// The number of samples.
    pub closed spec fn samples(&self) -> int {
        self.samples_y as int
    }

    /// Whether the sums have room for a frame.
    pub open spec fn has_room(&self, source: YuvBuffer) -> bool {
        65_025 * (self.samples() + source.format.w * source.format.h) <= u128::MAX
    }

    /// Adds the error of a decoded plane against a source frame.
    pub fn compare_luma(&mut self, source: &YuvBuffer, decoded_luma: &[u8], decoded_stride: usize) -> (res: Result<
        (),
        YuvError,
    >)
        requires
            luma_fits(*source, decoded_luma@.len(), decoded_stride as int) ==> luma_inside(*source) && old(self).has_room(
                *source,
            ),
        ensures
            match res {
                Ok(()) => {
                    &&& luma_fits(*source, decoded_luma@.len(), decoded_stride as int)
                    &&& final(self).error() == old(self).error() + plane_error(
                        *source,
                        decoded_luma@,
                        decoded_stride as int,
                        source.format.h as nat,
                    )
                    &&& final(self).samples() == old(self).samples() + source.format.w
                        * source.format.h
                },
                Err(err) => {
                    &&& !luma_fits(*source, decoded_luma@.len(), decoded_stride as int)
                    &&& err == YuvError::LumaTooSmall
                    &&& *final(self) == *old(self)
                },
            },
    {
        proof {
            use_type_invariant(&*self);
        }
        let w: usize = source.format.w;
        let h: usize = source.format.h;
        assert(decoded_luma@.len() == decoded_luma.len());
        if decoded_stride < w {
            return Err(YuvError::LumaTooSmall);
        }
        match decoded_stride.checked_mul(h) {
            Some(needed) => {
                if decoded_luma.len() < needed {
                    return Err(YuvError::LumaTooSmall);
                }
            },
            None => {
                return Err(YuvError::LumaTooSmall);
            },
        }
        let stride: usize = source.format.stride[0];
        let ghost error0 = self.squared_error_y as int;
        let ghost samples0 = self.samples_y as int;
        let mut error: u128 = self.squared_error_y;
        let mut samples: u128 = self.samples_y;
        let mut y: usize = 0;
        while y < h
            invariant
                y <= h,
                w == source.format.w,
                h == source.format.h,
                luma_inside(*source),
                stride == source.format.stride@[0],
                w <= decoded_stride,
                decoded_stride * h <= decoded_luma.len(),
                error0 <= 65_025 * samples0,
                65_025 * (samples0 + w * h) <= u128::MAX,
                error == error0 + plane_error(
                    *source,
                    decoded_luma@,
                    decoded_stride as int,
                    y as nat,
                ),
                samples == samples0 + w * y,
                error <= 65_025 * samples,
            decreases h - y,
        {
            proof {
                lemma_luma_row(
                    h as int,
                    stride as int,
                    w as int,
                    source.data@.len() as int,
                    y as int,
                );
                assert(source.data@.len() == source.data.len());
                assert(y * decoded_stride + decoded_stride <= decoded_stride * h) by (nonlinear_arith)
                    requires
                        y + 1 <= h,
                        0 <= decoded_stride,
                ;
                assert(0 <= y * decoded_stride) by (nonlinear_arith)
                    requires
                        0 <= y,
                        0 <= decoded_stride,
                ;
                assert(w * y + w <= w * h) by (nonlinear_arith)
                    requires
                        y + 1 <= h,
                        0 <= w,
                ;
                assert(w * (y + 1) == w * y + w) by (nonlinear_arith);
            }
            let source_at: usize = y * stride;
            let decoded_at: usize = y * decoded_stride;
            let ghost error1 = error as int;
            let mut x: usize = 0;
            while x < w
                invariant
                    x <= w,
                    y < h,
                    w == source.format.w,
                    source_at + w <= source.data.len(),
                    decoded_at + w <= decoded_luma.len(),
                    error == error1 + row_error(
                        source.data@,
                        source_at as int,
                        decoded_luma@,
                        decoded_at as int,
                        x as nat,
                    ),
                    error1 <= 65_025 * samples,
                    error <= 65_025 * samples + 65_025 * x,
                    65_025 * samples + 65_025 * w <= u128::MAX,
                decreases w - x,
            {
                let a: u8 = source.data[source_at + x];
                let b: u8 = decoded_luma[decoded_at + x];
                let difference: i32 = a as i32 - b as i32;
                proof {
                    lemma_squared(a, b);
                    assert(difference * difference == squared(a, b));
                }
                error = error + (difference * difference) as u128;
                x += 1;
            }
            samples = samples + w as u128;
            y += 1;
        }
        *self = QualityAccumulator { squared_error_y: error, samples_y: samples };
        Ok(())
    }

    /// Adds the error of a picture that a software decoder returned.
    pub fn compare(&mut self, source: &YuvBuffer, decoded: &DecodedPicture) -> (res: Result<(), YuvError>)
        requires
            picture_fault(*source, *decoded) is None ==> luma_inside(*source) && old(self).has_room(
                *source,
            ),
        ensures
            match res {
                Ok(()) => {
                    &&& picture_fault(*source, *decoded) is None
                    &&& final(self).error() == old(self).error() + plane_error(
                        *source,
                        decoded.y.data->0@,
                        decoded.y.stride as int,
                        source.format.h as nat,
                    )
                    &&& final(self).samples() == old(self).samples() + source.format.w
                        * source.format.h
                },
                Err(err) => {
                    &&& picture_fault(*source, *decoded) == Some(err)
                    &&& *final(self) == *old(self)
                },
            },
    {
        if decoded.width != source.format.w || decoded.height != source.format.h
            || decoded.y.stride <= 0 {
            return Err(YuvError::DecodedLayout);
        }
        match decoded.y.data {
            None => Err(YuvError::DecodedLayout),
            Some(luma) => {
                let stride: usize = decoded.y.stride as usize;
                if stride < source.format.w {
                    return Err(YuvError::DecodedStride);
                }
                self.compare_luma(source, luma, stride)
            },
        }
    }

    /// Adds the error of a frame that a hardware decoder returned.
    pub fn compare_hw_frame(&mut self, source: &YuvBuffer, decoded: &HwFrame) -> (res: Result<
        (),
        YuvError,
    >)
        requires
            hw_fault(*source, *decoded) is None ==> luma_inside(*source) && old(self).has_room(
                *source,
            ),
        ensures
            match res {
                Ok(()) => {
                    &&& hw_fault(*source, *decoded) is None
                    &&& final(self).error() == old(self).error() + plane_error(
                        *source,
                        decoded.data@[0]@,
                        decoded.linesize@[0] as int,
                        source.format.h as nat,
                    )
                    &&& final(self).samples() == old(self).samples() + source.format.w
                        * source.format.h
                },
                Err(err) => {
                    &&& hw_fault(*source, *decoded) == Some(err)
                    &&& *final(self) == *old(self)
                },
            },
    {
        if decoded.width != truncate32(source.format.w) || decoded.height != truncate32(
            source.format.h,
        ) || decoded.data.len() == 0 || decoded.linesize.len() == 0 || decoded.linesize[0] <= 0 {
            return Err(YuvError::HwLayout);
        }
        let stride: usize = decoded.linesize[0] as usize;
        let luma = decoded.data[0].as_slice();
        assert(luma@.len() == luma.len());
        if stride < source.format.w {
            return Err(YuvError::HwLumaTooSmall);
        }
        match stride.checked_mul(source.format.h) {
            Some(needed) => {
                if luma.len() < needed {
                    return Err(YuvError::HwLumaTooSmall);
                }
            },
            None => {
                return Err(YuvError::HwLumaTooSmall);
            },
        }
        self.compare_luma(source, luma, stride)
    }

    /// The sum of the squared differences.
    pub fn squared_error_y(&self) -> (error: u128)
        ensures
            error == self.error(),
    {
        self.squared_error_y
    }

    /// The number of samples.
    pub fn samples_y(&self) -> (samples: u128)
        ensures
            samples == self.samples(),
    {
        self.samples_y
    }
}

impl Default for QualityAccumulator {
    fn default() -> (quality: QualityAccumulator)
        ensures
            quality.error() == 0,
            quality.samples() == 0,
    {
        QualityAccumulator { squared_error_y: 0, samples_y: 0 }
    }
}

/// Whether a decoded plane holds the visible rows of the source.
pub open spec fn luma_fits(source: YuvBuffer, len: nat, stride: int) -> bool {
    source.format.w <= stride && stride * source.format.h <= len
}

/// A frame compared with itself has no error.
pub proof fn law_no_error_against_itself(source: YuvBuffer, rows: nat)
    ensures
        plane_error(source, source.data@, source.format.stride@[0] as int, rows) == 0,
    decreases rows,
{
    if rows > 0 {
        law_no_error_against_itself(source, (rows - 1) as nat);
        let at = (rows - 1) * source.format.stride@[0];
        lemma_row_no_error(source.data@, at, source.format.w as nat);
    }
}

proof fn lemma_row_no_error(data: Seq<u8>, at: int, count: nat)
    ensures
        row_error(data, at, data, at, count) == 0,
    decreases count,
{
    if count > 0 {
        lemma_row_no_error(data, at, (count - 1) as nat);
    }
}

// ---------------------------------------------------------------------------
// Decoded pictures
// ---------------------------------------------------------------------------

/// A plane of a decoded picture; no bytes where the decoder gave none.
#[derive(Clone, Copy, Debug)]
pub struct DecodedPlane<'a> {
    pub data: Option<&'a [u8]>,
    pub stride: i32,
}

/// A picture that a software decoder returned.
#[derive(Clone, Copy, Debug)]
pub struct DecodedPicture<'a> {
    pub width: usize,
    pub height: usize,
    /// Whether the chroma planes have full resolution.
    pub i444: bool,
    pub y: DecodedPlane<'a>,
    pub u: DecodedPlane<'a>,
    pub v: DecodedPlane<'a>,
}

/// Why a decoded picture cannot be compared with a source, if so.
pub open spec fn picture_fault(source: YuvBuffer, decoded: DecodedPicture) -> Option<YuvError> {
    if decoded.width != source.format.w || decoded.height != source.format.h || decoded.y.data is None
        || decoded.y.stride <= 0 {
        Some(YuvError::DecodedLayout)
    } else if decoded.y.stride < source.format.w {
        Some(YuvError::DecodedStride)
    } else if !luma_fits(source, decoded.y.data->0@.len(), decoded.y.stride as int) {
        Some(YuvError::LumaTooSmall)
    } else {
        None
    }
}

/// The pixel formats of a hardware decoder.
#[derive(Clone, Copy, Debug, PartialEq, Eq, Structural)]
pub enum HwPixelFormat {
    Yuv420p,
    Nv12,
    Other,
}

/// A frame that a hardware decoder returned.
#[derive(Debug)]
pub struct HwFrame {
    pub width: i32,
    pub height: i32,
    pub format: HwPixelFormat,
    pub data: Vec<Vec<u8>>,
    pub linesize: Vec<i32>,
}

/// Why a hardware frame cannot be compared with a source, if so.
pub open spec fn hw_fault(source: YuvBuffer, decoded: HwFrame) -> Option<YuvError> {
    if decoded.width != truncated32(source.format.w as int) || decoded.height != truncated32(
        source.format.h as int,
    ) || decoded.data@.len() == 0 || decoded.linesize@.len() == 0 || decoded.linesize@[0] <= 0 {
        Some(YuvError::HwLayout)
    } else if !luma_fits(source, decoded.data@[0]@.len(), decoded.linesize@[0] as int) {
        Some(YuvError::HwLumaTooSmall)
    } else {
        None
    }
}

/// A sum over 256, rounded down and kept within a channel.
pub open spec fn channel(sum: int) -> u8 {
    let value = sum / 256;
    if value < 0 {
        0
    } else if value > 255 {
        255
    } else {
        value as u8
    }
}

/// The colour of a studio-range sample.
pub open spec fn yuv_color(luma: u8, cb: u8, cr: u8) -> Bgra {
    let c: int = if luma < 16 { 0 } else { luma - 16 };
    let d = cb - 128;
    let e = cr - 128;
    Bgra {
        b: channel(298 * c + 516 * d + 128),
        g: channel(298 * c - 100 * d - 208 * e + 128),
        r: channel(298 * c + 409 * e + 128),
        a: 255,
    }
}

fn to_channel(sum: i32) -> (value: u8)
    ensures
        value == channel(sum as int),
{
    if sum < 0 {
        0
    } else if sum / 256 > 255 {
        255
    } else {
        (sum / 256) as u8
    }
}

fn to_color(luma: u8, cb: u8, cr: u8) -> (color: Bgra)
    ensures
        color == yuv_color(luma, cb, cr),
{
    let c: i32 = if luma < 16 { 0 } else { luma as i32 - 16 };
    let d: i32 = cb as i32 - 128;
    let e: i32 = cr as i32 - 128;
    Bgra {
        b: to_channel(298 * c + 516 * d + 128),
        g: to_channel(298 * c - 100 * d - 208 * e + 128),
        r: to_channel(298 * c + 409 * e + 128),
        a: 255,
    }
}

/// Whether a plane of `columns` by `rows` samples lies within its bytes.
pub open spec fn plane_inside(len: int, stride: int, columns: int, rows: int) -> bool {
    (rows - 1) * stride + columns <= len
}

/// How many samples of a chroma plane cover `size` pixels.
pub open spec fn chroma_size(size: int, i444: bool) -> int {
    if i444 {
        size
    } else {
        (size + 1) / 2
    }
}

/// Whether the planes of a picture are there.
pub open spec fn picture_present(picture: DecodedPicture) -> bool {
    &&& picture.width != 0 && picture.height != 0
    &&& picture.y.data is Some && picture.u.data is Some && picture.v.data is Some
    &&& picture.y.stride > 0 && picture.u.stride > 0 && picture.v.stride > 0
}

/// Why a picture cannot be shown, if so.
pub open spec fn picture_image_fault(picture: DecodedPicture) -> Option<YuvError> {
    if !picture_present(picture) {
        Some(YuvError::DecodedImage)
    } else if picture.width * 4 > usize::MAX {
        Some(YuvError::DecodedSizeOverflow)
    } else {
        None
    }
}

/// Whether the planes that are there hold all samples of the picture.
pub open spec fn picture_inside(picture: DecodedPicture) -> bool {
    &&& picture.width * 4 * picture.height <= usize::MAX
    &&& plane_inside(
        picture.y.data->0@.len() as int,
        picture.y.stride as int,
        picture.width as int,
        picture.height as int,
    )
    &&& plane_inside(
        picture.u.data->0@.len() as int,
        picture.u.stride as int,
        chroma_size(picture.width as int, picture.i444),
        chroma_size(picture.height as int, picture.i444),
    )
    &&& plane_inside(
        picture.v.data->0@.len() as int,
        picture.v.stride as int,
        chroma_size(picture.width as int, picture.i444),
        chroma_size(picture.height as int, picture.i444),
    )
}

/// The colour of a place of a picture.
pub open spec fn picture_pixel(picture: DecodedPicture, x: int, y: int) -> Bgra {
    let cx = if picture.i444 { x } else { x / 2 };
    let cy = if picture.i444 { y } else { y / 2 };
    yuv_color(
        picture.y.data->0@[y * picture.y.stride + x],
        picture.u.data->0@[cy * picture.u.stride + cx],
        picture.v.data->0@[cy * picture.v.stride + cx],
    )
}

proof fn lemma_plane_sample(len: int, stride: int, columns: int, rows: int, x: int, y: int)
    requires
        plane_inside(len, stride, columns, rows),
        0 <= x < columns,
        0 <= y < rows,
        0 <= stride,
    ensures
        0 <= y * stride,
        0 <= y * stride + x < len,
{
    assert(0 <= y * stride <= (rows - 1) * stride) by (nonlinear_arith)
        requires
            0 <= y <= rows - 1,
            0 <= stride,
    ;
}

/// Sets a pixel of a tight frame.
fn set_pixel(bgra: &mut Vec<u8>, width: usize, height: usize, x: usize, y: usize, color: Bgra)
    requires
        is_frame(old(bgra)@, width as int, height as int),
        x < width,
        y < height,
    ensures
        is_frame(final(bgra)@, width as int, height as int),
        forall|px: int, py: int|
            0 <= px < width && 0 <= py < height ==> #[trigger] pixel(final(bgra)@, width as int, px, py)
                == if px == x && py == y {
                color
            } else {
                pixel(old(bgra)@, width as int, px, py)
            },
{
    proof {
        lemma_pixel_inside(width as int, height as int, x as int, y as int);
        assert(0 <= y * width) by (nonlinear_arith)
            requires
                0 <= y,
                0 <= width,
        ;
        assert(bgra@.len() == bgra.len());
    }
    let at: usize = (y * width + x) * 4;
    bgra.set(at, color.b);
    bgra.set(at + 1, color.g);
    bgra.set(at + 2, color.r);
    bgra.set(at + 3, color.a);
    assert forall|px: int, py: int| 0 <= px < width && 0 <= py < height implies #[trigger] pixel(
        bgra@,
        width as int,
        px,
        py,
    ) == if px == x && py == y {
        color
    } else {
        pixel(old(bgra)@, width as int, px, py)
    } by {
        lemma_pixel_inside(width as int, height as int, px, py);
        if px != x || py != y {
            lemma_pixels_distinct(width as int, x as int, y as int, px, py);
        }
    }
}

/// The picture of a software decoder as a tight BGRA frame.
pub fn decoded_bgra(picture: &DecodedPicture) -> (res: Result<Vec<u8>, YuvError>)
    requires
        picture_image_fault(*picture) is None ==> picture_inside(*picture),
    ensures
        match res {
            Ok(bgra) => {
                &&& picture_image_fault(*picture) is None
                &&& is_frame(bgra@, picture.width as int, picture.height as int)
                &&& forall|x: int, y: int|
                    0 <= x < picture.width && 0 <= y < picture.height ==> #[trigger] pixel(
                        bgra@,
                        picture.width as int,
                        x,
                        y,
                    ) == picture_pixel(*picture, x, y)
            },
            Err(err) => picture_image_fault(*picture) == Some(err),
        },
{
    let width: usize = picture.width;
    let height: usize = picture.height;
    if width == 0 || height == 0 || picture.y.stride <= 0 || picture.u.stride <= 0
        || picture.v.stride <= 0 {
        return Err(YuvError::DecodedImage);
    }
    let (luma, cb, cr) = match (picture.y.data, picture.u.data, picture.v.data) {
        (Some(luma), Some(cb), Some(cr)) => (luma, cb, cr),
        _ => {
            return Err(YuvError::DecodedImage);
        },
    };
    if width > usize::MAX / 4 {
        return Err(YuvError::DecodedSizeOverflow);
    }
    let i444 = picture.i444;
    let y_stride: usize = picture.y.stride as usize;
    let u_stride: usize = picture.u.stride as usize;
    let v_stride: usize = picture.v.stride as usize;
    proof {
        assert(width * 4 <= width * 4 * height) by (nonlinear_arith)
            requires
                1 <= height,
                1 <= width,
        ;
        assert(pixel_offset(width as int, 0, height as int) == width * 4 * height) by (nonlinear_arith);
        assert(luma@.len() == luma.len() && cb@.len() == cb.len() && cr@.len() == cr.len());
    }
    let mut bgra: Vec<u8> = vec![0u8; width * 4 * height];
    let mut y: usize = 0;
    while y < height
        invariant
            y <= height,
            width == picture.width,
            height == picture.height,
            0 < width,
            i444 == picture.i444,
            picture_present(*picture),
            picture_inside(*picture),
            luma == picture.y.data->0,
            cb == picture.u.data->0,
            cr == picture.v.data->0,
            luma@.len() == luma.len() && cb@.len() == cb.len() && cr@.len() == cr.len(),
            y_stride == picture.y.stride,
            u_stride == picture.u.stride,
            v_stride == picture.v.stride,
            is_frame(bgra@, width as int, height as int),
            forall|px: int, py: int|
                0 <= px < width && 0 <= py < y ==> #[trigger] pixel(bgra@, width as int, px, py)
                    == picture_pixel(*picture, px, py),
        decreases height - y,
    {
        let cy: usize = if i444 { y } else { y / 2 };
        let mut x: usize = 0;
        while x < width
            invariant
                x <= width,
                y < height,
                cy == if i444 { y as int } else { y as int / 2 },
                width == picture.width,
                height == picture.height,
                0 < width,
                i444 == picture.i444,
                picture_present(*picture),
                picture_inside(*picture),
                luma == picture.y.data->0,
                cb == picture.u.data->0,
                cr == picture.v.data->0,
                luma@.len() == luma.len() && cb@.len() == cb.len() && cr@.len() == cr.len(),
                y_stride == picture.y.stride,
                u_stride == picture.u.stride,
                v_stride == picture.v.stride,
                is_frame(bgra@, width as int, height as int),
                forall|px: int, py: int|
                    0 <= px < width && 0 <= py < height && (py < y || (py == y && px < x)) ==> #[trigger] pixel(
                        bgra@,
                        width as int,
                        px,
                        py,
                    ) == picture_pixel(*picture, px, py),
            decreases width - x,
        {
            let cx: usize = if i444 { x } else { x / 2 };
            proof {
                lemma_plane_sample(
                    luma@.len() as int,
                    y_stride as int,
                    width as int,
                    height as int,
                    x as int,
                    y as int,
                );
                lemma_plane_sample(
                    cb@.len() as int,
                    u_stride as int,
                    chroma_size(width as int, i444),
                    chroma_size(height as int, i444),
                    cx as int,
                    cy as int,
                );
                lemma_plane_sample(
                    cr@.len() as int,
                    v_stride as int,
                    chroma_size(width as int, i444),
                    chroma_size(height as int, i444),
                    cx as int,
                    cy as int,
                );
            }
            let color = to_color(
                luma[y * y_stride + x],
                cb[cy * u_stride + cx],
                cr[cy * v_stride + cx],
            );
            set_pixel(&mut bgra, width, height, x, y, color);
            x += 1;
        }
        y += 1;
    }
    Ok(bgra)
}

/// The stride of the third plane, zero where there is none.
pub open spec fn hw_v_stride(frame: HwFrame) -> int {
    if frame.linesize@.len() > 2 && frame.linesize@[2] > 0 {
        frame.linesize@[2] as int
    } else {
        0
    }
}

/// Why a hardware frame cannot be shown, if so.
pub open spec fn hw_image_fault(frame: HwFrame) -> Option<YuvError> {
    if frame.width < 0 {
        Some(YuvError::HwWidth)
    } else if frame.height < 0 {
        Some(YuvError::HwHeight)
    } else if frame.width == 0 || frame.height == 0 || frame.data@.len() < 2 || frame.linesize@.len()
        < 2 || frame.linesize@[0] <= 0 || frame.linesize@[1] <= 0 {
        Some(YuvError::HwImage)
    } else if frame.format == HwPixelFormat::Other || (frame.format == HwPixelFormat::Yuv420p
        && frame.data@.len() < 3) {
        Some(YuvError::HwFormat)
    } else if frame.width * 4 > usize::MAX {
        Some(YuvError::DecodedSizeOverflow)
    } else {
        None
    }
}

/// Whether the planes of a hardware frame hold all its samples.
pub open spec fn hw_inside(frame: HwFrame) -> bool {
    let columns = chroma_size(frame.width as int, false);
    let rows = chroma_size(frame.height as int, false);
    &&& frame.width * 4 * frame.height <= usize::MAX
    &&& plane_inside(
        frame.data@[0]@.len() as int,
        frame.linesize@[0] as int,
        frame.width as int,
        frame.height as int,
    )
    &&& if frame.format == HwPixelFormat::Yuv420p {
        &&& plane_inside(frame.data@[1]@.len() as int, frame.linesize@[1] as int, columns, rows)
        &&& plane_inside(frame.data@[2]@.len() as int, hw_v_stride(frame), columns, rows)
    } else {
        plane_inside(frame.data@[1]@.len() as int, frame.linesize@[1] as int, columns * 2, rows)
    }
}

/// The colour of a place of a hardware frame.
pub open spec fn hw_pixel(frame: HwFrame, x: int, y: int) -> Bgra {
    let luma = frame.data@[0]@[y * frame.linesize@[0] + x];
    if frame.format == HwPixelFormat::Yuv420p {
        yuv_color(
            luma,
            frame.data@[1]@[y / 2 * frame.linesize@[1] + x / 2],
            frame.data@[2]@[y / 2 * hw_v_stride(frame) + x / 2],
        )
    } else {
        let at = y / 2 * frame.linesize@[1] + x / 2 * 2;
        yuv_color(luma, frame.data@[1]@[at], frame.data@[1]@[at + 1])
    }
}

/// The colour of a place of a hardware frame.
fn hw_color(frame: &HwFrame, v_stride: usize, x: usize, y: usize) -> (color: Bgra)
    requires
        hw_image_fault(*frame) is None,
        hw_inside(*frame),
        v_stride == hw_v_stride(*frame),
        x < frame.width,
        y < frame.height,
    ensures
        color == hw_pixel(*frame, x as int, y as int),
{
    let columns: Ghost<int> = Ghost(chroma_size(frame.width as int, false));
    let rows: Ghost<int> = Ghost(chroma_size(frame.height as int, false));
    let y_stride: usize = frame.linesize[0] as usize;
    let uv_stride: usize = frame.linesize[1] as usize;
    proof {
        lemma_plane_sample(
            frame.data@[0]@.len() as int,
            y_stride as int,
            frame.width as int,
            frame.height as int,
            x as int,
            y as int,
        );
        assert(frame.data@[0]@.len() == frame.data@[0].len());
        assert(frame.data@[1]@.len() == frame.data@[1].len());
    }
    let luma: u8 = frame.data[0][y * y_stride + x];
    if frame.format == HwPixelFormat::Yuv420p {
        proof {
            lemma_plane_sample(
                frame.data@[1]@.len() as int,
                uv_stride as int,
                columns@,
                rows@,
                x as int / 2,
                y as int / 2,
            );
            lemma_plane_sample(
                frame.data@[2]@.len() as int,
                v_stride as int,
                columns@,
                rows@,
                x as int / 2,
                y as int / 2,
            );
            assert(frame.data@[2]@.len() == frame.data@[2].len());
        }
        let cb: u8 = frame.data[1][(y / 2) * uv_stride + x / 2];
        let cr: u8 = frame.data[2][(y / 2) * v_stride + x / 2];
        to_color(luma, cb, cr)
    } else {
        proof {
            lemma_plane_sample(
                frame.data@[1]@.len() as int,
                uv_stride as int,
                columns@ * 2,
                rows@,
                x as int / 2 * 2 + 1,
                y as int / 2,
            );
        }
        let at: usize = (y / 2) * uv_stride + (x / 2) * 2;
        let cb: u8 = frame.data[1][at];
        let cr: u8 = frame.data[1][at + 1];
        to_color(luma, cb, cr)
    }
}

/// The frame of a hardware decoder as a tight BGRA frame.
pub fn hw_decoded_bgra(frame: &HwFrame) -> (res: Result<Vec<u8>, YuvError>)
    requires
        hw_image_fault(*frame) is None ==> hw_inside(*frame),
    ensures
        match res {
            Ok(bgra) => {
                &&& hw_image_fault(*frame) is None
                &&& is_frame(bgra@, frame.width as int, frame.height as int)
                &&& forall|x: int, y: int|
                    0 <= x < frame.width && 0 <= y < frame.height ==> #[trigger] pixel(
                        bgra@,
                        frame.width as int,
                        x,
                        y,
                    ) == hw_pixel(*frame, x, y)
            },
            Err(err) => hw_image_fault(*frame) == Some(err),
        },
{
    if frame.width < 0 {
        return Err(YuvError::HwWidth);
    }
    if frame.height < 0 {
        return Err(YuvError::HwHeight);
    }
    let width: usize = frame.width as usize;
    let height: usize = frame.height as usize;
    if width == 0 || height == 0 || frame.data.len() < 2 || frame.linesize.len() < 2
        || frame.linesize[0] <= 0 || frame.linesize[1] <= 0 {
        return Err(YuvError::HwImage);
    }
    if frame.format == HwPixelFormat::Other || (frame.format == HwPixelFormat::Yuv420p
        && frame.data.len() < 3) {
        return Err(YuvError::HwFormat);
    }
    if width > usize::MAX / 4 {
        return Err(YuvError::DecodedSizeOverflow);
    }
    let v_stride: usize = if frame.linesize.len() > 2 && frame.linesize[2] > 0 {
        frame.linesize[2] as usize
    } else {
        0
    };
    proof {
        assert(width * 4 <= width * 4 * height) by (nonlinear_arith)
            requires
                1 <= height,
                1 <= width,
        ;
        assert(pixel_offset(width as int, 0, height as int) == width * 4 * height) by (nonlinear_arith);
    }
    let mut bgra: Vec<u8> = vec![0u8; width * 4 * height];
    let mut y: usize = 0;
    while y < height
        invariant
            y <= height,
            width == frame.width,
            height == frame.height,
            hw_image_fault(*frame) is None,
            hw_inside(*frame),
            v_stride == hw_v_stride(*frame),
            is_frame(bgra@, width as int, height as int),
            forall|px: int, py: int|
                0 <= px < width && 0 <= py < y ==> #[trigger] pixel(bgra@, width as int, px, py)
                    == hw_pixel(*frame, px, py),
        decreases height - y,
    {
        let mut x: usize = 0;
        while x < width
            invariant
                x <= width,
                y < height,
                width == frame.width,
                height == frame.height,
                hw_image_fault(*frame) is None,
                hw_inside(*frame),
                v_stride == hw_v_stride(*frame),
                is_frame(bgra@, width as int, height as int),
                forall|px: int, py: int|
                    0 <= px < width && 0 <= py < height && (py < y || (py == y && px < x)) ==> #[trigger] pixel(
                        bgra@,
                        width as int,
                        px,
                        py,
                    ) == hw_pixel(*frame, px, py),
            decreases width - x,
        {
            let color = hw_color(frame, v_stride, x, y);
            set_pixel(&mut bgra, width, height, x, y, color);
            x += 1;
        }
        y += 1;
    }
    Ok(bgra)
}

// ---------------------------------------------------------------------------
// Bitmaps
// ---------------------------------------------------------------------------

/// Why a tight frame of `len` bytes cannot be written as a bitmap, if so.
pub open spec fn bmp_fault(len: nat, width: usize, height: usize) -> Option<YuvError> {
    if width * 4 > usize::MAX {
        Some(YuvError::BmpRowOverflow)
    } else if len != width * 4 * height {
        Some(YuvError::BmpSource)
    } else if 54 + len > usize::MAX {
        Some(YuvError::BmpFileOverflow)
    } else if width > i32::MAX {
        Some(YuvError::BmpWidth)
    } else if height > i32::MAX {
        Some(YuvError::BmpHeight)
    } else {
        None
    }
}

/// The bitmap file of a tight BGRA frame.
pub fn write_bgra_bmp(bgra: &[u8], width: usize, height: usize) -> (res: Result<Vec<u8>, YuvError>)
    ensures
        match res {
            Ok(file) => {
                &&& bmp_fault(bgra@.len(), width, height) is None
                &&& file@ == bitmap_bytes(
                    bgra@,
                    width * 4,
                    width as nat,
                    height as nat,
                    0,
                )
            },
            Err(err) => bmp_fault(bgra@.len(), width, height) == Some(err),
        },
{
    let row_bytes: usize = match width.checked_mul(4) {
        Some(bytes) => bytes,
        None => {
            return Err(YuvError::BmpRowOverflow);
        },
    };
    assert(bgra@.len() == bgra.len());
    match row_bytes.checked_mul(height) {
        Some(bytes) => {
            if bgra.len() != bytes {
                return Err(YuvError::BmpSource);
            }
        },
        None => {
            return Err(YuvError::BmpSource);
        },
    }
    if bgra.len() > usize::MAX - 54 {
        return Err(YuvError::BmpFileOverflow);
    }
    if width as u64 > i32::MAX as u64 {
        return Err(YuvError::BmpWidth);
    }
    if height as u64 > i32::MAX as u64 {
        return Err(YuvError::BmpHeight);
    }
    Ok(encode_bitmap(bgra, row_bytes, width as u32, height as u32, 0))
}

} // verus!
