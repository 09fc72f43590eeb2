//! Corpora of BGRA frames: synthetic ones, and recordings with their file format.
//! The caller reads and writes the files and captures the desktop.
use vstd::prelude::*;
use vstd::string::*;

use crate::bytes::{
    law_le_value_of_bytes, le32_at, le64_at, le_bytes, le_value, lemma_le_len, lemma_radix, push_le32, push_le64,
};
use crate::netprobe::clock::{elapsed_at_least, has_elapsed, saturating_mul, saturating_product};
use crate::screen::render::{
    is_frame, lemma_pixel_inside, lemma_pixels_distinct, lemma_same_pixels, pixel, pixel_offset,
    render_synthetic_frame, synthetic_pixel, Bgra, SyntheticScene, MAX_DIMENSION,
};

verus! {

pub const CORPUS_VERSION: u32 = 1;

/// The length of a recording's header.
pub const HEADER_SIZE: u64 = 28;

/// The length of the time stamp before each recorded frame.
pub const FRAME_TIMESTAMP_SIZE: u64 = 8;

pub const MAX_FRAME_BYTES: usize = 1_073_741_824;

/// `RASCBGR1`, the first bytes of a recording.
pub open spec fn corpus_magic() -> Seq<u8> {
    seq![0x52u8, 0x41, 0x53, 0x43, 0x42, 0x47, 0x52, 0x31]
}

/// The pixel formats of a capture.
#[derive(Clone, Copy, Debug, PartialEq, Eq, Structural)]
pub enum PixelFormat {
    Bgra,
    Rgba,
    Rgb565Le,
    I420,
    Nv12,
    I444,
}

impl PixelFormat {
    pub open spec fn title(self) -> Seq<char> {
        match self {
            PixelFormat::Bgra => "BGRA"@,
            PixelFormat::Rgba => "RGBA"@,
            PixelFormat::Rgb565Le => "RGB565LE"@,
            PixelFormat::I420 => "I420"@,
            PixelFormat::Nv12 => "NV12"@,
            PixelFormat::I444 => "I444"@,
        }
    }

    pub fn name(self) -> (text: &'static str)
        ensures
            text@ == self.title(),
    {
        match self {
            PixelFormat::Bgra => "BGRA",
            PixelFormat::Rgba => "RGBA",
            PixelFormat::Rgb565Le => "RGB565LE",
            PixelFormat::I420 => "I420",
            PixelFormat::Nv12 => "NV12",
            PixelFormat::I444 => "I444",
        }
    }
}

/// Why a corpus cannot be made, read or recorded.
#[derive(Clone, Copy, Debug, PartialEq, Eq, Structural)]
pub enum CorpusError {
    SyntheticTiming,
    SyntheticIndex,
    SyntheticLength,
    Magic,
    Version,
    Timing,
    Size,
    FrameRequest,
    UnexpectedEof,
    Dimensions,
    FrameOverflow,
    FrameTooLarge,
    NoStride,
    PixelBuffer,
    UnsupportedFormat(PixelFormat),
    RecordTiming,
    NoDisplays,
    DisplayIndex,
    IdleTimeout,
}

/// The class of a [`CorpusError`], as the standard library names it.
#[derive(Clone, Copy, Debug, PartialEq, Eq, Structural)]
pub enum CorpusErrorKind {
    InvalidData,
    UnexpectedEof,
    TimedOut,
}

impl CorpusError {
    /// The class of the error.
    pub open spec fn class(self) -> CorpusErrorKind {
        match self {
            CorpusError::UnexpectedEof => CorpusErrorKind::UnexpectedEof,
            CorpusError::IdleTimeout => CorpusErrorKind::TimedOut,
            _ => CorpusErrorKind::InvalidData,
        }
    }

    pub fn kind(&self) -> (kind: CorpusErrorKind)
        ensures
            kind == self.class(),
    {
        match self {
            CorpusError::UnexpectedEof => CorpusErrorKind::UnexpectedEof,
            CorpusError::IdleTimeout => CorpusErrorKind::TimedOut,
            _ => CorpusErrorKind::InvalidData,
        }
    }

    /// The error in words.
    pub open spec fn words(self) -> Seq<char> {
        match self {
            CorpusError::SyntheticTiming => "fps and frame count must be non-zero"@,
            CorpusError::SyntheticIndex => "synthetic frame index out of range"@,
            CorpusError::SyntheticLength => "synthetic BGRA buffer has the wrong length"@,
            CorpusError::Magic => "not a RustAdmin AV1 screen corpus"@,
            CorpusError::Version => "unsupported corpus version"@,
            CorpusError::Timing => "invalid corpus timing or frame count"@,
            CorpusError::Size => "truncated or oversized corpus"@,
            CorpusError::FrameRequest => "recorded frame request is out of range"@,
            CorpusError::UnexpectedEof => "failed to fill whole buffer"@,
            CorpusError::Dimensions => "invalid corpus dimensions"@,
            CorpusError::FrameOverflow => "frame size overflow"@,
            CorpusError::FrameTooLarge => "frame exceeds benchmark safety limit"@,
            CorpusError::NoStride => "capture has no stride"@,
            CorpusError::PixelBuffer => "invalid captured pixel buffer"@,
            CorpusError::UnsupportedFormat(format) => "unsupported capture pixel format: "@
                + format.title(),
            CorpusError::RecordTiming => "invalid record frame count or fps"@,
            CorpusError::NoDisplays => "no displays found"@,
            CorpusError::DisplayIndex => "display index is out of range"@,
            CorpusError::IdleTimeout =>
                "desktop capture produced no changed frame before the idle timeout"@,
        }
    }

    /// The error in words.
    pub fn message(&self) -> (text: String)
        ensures
            text@ == self.words(),
    {
        match self {
            CorpusError::SyntheticTiming => "fps and frame count must be non-zero".to_owned(),
            CorpusError::SyntheticIndex => "synthetic frame index out of range".to_owned(),
            CorpusError::SyntheticLength => "synthetic BGRA buffer has the wrong length".to_owned(),
            CorpusError::Magic => "not a RustAdmin AV1 screen corpus".to_owned(),
            CorpusError::Version => "unsupported corpus version".to_owned(),
            CorpusError::Timing => "invalid corpus timing or frame count".to_owned(),
            CorpusError::Size => "truncated or oversized corpus".to_owned(),
            CorpusError::FrameRequest => "recorded frame request is out of range".to_owned(),
            CorpusError::UnexpectedEof => "failed to fill whole buffer".to_owned(),
            CorpusError::Dimensions => "invalid corpus dimensions".to_owned(),
            CorpusError::FrameOverflow => "frame size overflow".to_owned(),
            CorpusError::FrameTooLarge => "frame exceeds benchmark safety limit".to_owned(),
            CorpusError::NoStride => "capture has no stride".to_owned(),
            CorpusError::PixelBuffer => "invalid captured pixel buffer".to_owned(),
            CorpusError::UnsupportedFormat(format) => {
                let mut text = "unsupported capture pixel format: ".to_owned();
                text.append(format.name());
                text
            },
            CorpusError::RecordTiming => "invalid record frame count or fps".to_owned(),
            CorpusError::NoDisplays => "no displays found".to_owned(),
            CorpusError::DisplayIndex => "display index is out of range".to_owned(),
            CorpusError::IdleTimeout =>
                "desktop capture produced no changed frame before the idle timeout".to_owned(),
        }
    }
}

// ---------------------------------------------------------------------------
// Sizes
// ---------------------------------------------------------------------------

/// The bytes of a frame, or why there is no such frame.
pub open spec fn frame_bytes(width: int, height: int) -> Result<int, CorpusError> {
    if width * height * 4 > usize::MAX {
        Err(CorpusError::FrameOverflow)
    } else if width * height * 4 > MAX_FRAME_BYTES {
        Err(CorpusError::FrameTooLarge)
    } else {
        Ok(width * height * 4)
    }
}

/// Whether a frame may have the size.
pub open spec fn valid_dimensions(width: int, height: int) -> bool {
    0 < width <= MAX_DIMENSION && 0 < height <= MAX_DIMENSION
}

pub fn checked_frame_bytes(width: usize, height: usize) -> (res: Result<usize, CorpusError>)
    ensures
        match res {
            Ok(bytes) => frame_bytes(width as int, height as int) == Ok::<int, CorpusError>(
                bytes as int,
            ),
            Err(err) => frame_bytes(width as int, height as int) == Err::<int, CorpusError>(err),
        },
{
    assert(0 <= width * height) by (nonlinear_arith)
        requires
            0 <= width,
            0 <= height,
    ;
    let pixels: usize = match width.checked_mul(height) {
        Some(pixels) => pixels,
        None => {
            return Err(CorpusError::FrameOverflow);
        },
    };
    let bytes: usize = match pixels.checked_mul(4) {
        Some(bytes) => bytes,
        None => {
            return Err(CorpusError::FrameOverflow);
        },
    };
    if bytes > MAX_FRAME_BYTES {
        return Err(CorpusError::FrameTooLarge);
    }
    Ok(bytes)
}

pub fn validate_dimensions(width: usize, height: usize) -> (res: Result<(), CorpusError>)
    ensures
        match res {
            Ok(()) => valid_dimensions(width as int, height as int),
            Err(err) => !valid_dimensions(width as int, height as int) && err
                == CorpusError::Dimensions,
        },
{
    if width == 0 || height == 0 || width > MAX_DIMENSION || height > MAX_DIMENSION {
        return Err(CorpusError::Dimensions);
    }
    Ok(())
}

/// Every frame of a valid size is within the limit.
pub proof fn law_valid_frames_fit(width: int, height: int)
    requires
        valid_dimensions(width, height),
    ensures
        frame_bytes(width, height) == Ok::<int, CorpusError>(width * height * 4),
        0 < width * height * 4 <= MAX_FRAME_BYTES,
{
    assert(0 < width * height <= 268_435_456) by (nonlinear_arith)
        requires
            0 < width <= 16_384,
            0 < height <= 16_384,
    ;
}

proof fn lemma_frame_len(width: int, height: int)
    ensures
        pixel_offset(width, 0, height) == width * height * 4,
{
    assert(height * width == width * height) by (nonlinear_arith);
}

// ---------------------------------------------------------------------------
// Corpora
// ---------------------------------------------------------------------------

#[derive(Clone, Debug)]
pub struct CorpusMetadata {
    pub name: String,
    pub width: usize,
    pub height: usize,
    pub fps: u32,
    pub frames: usize,
}

/// The name of a synthetic corpus.
pub open spec fn synthetic_name(scene: SyntheticScene) -> Seq<char> {
    "synthetic-"@ + scene.name() + "-v1"@
}

/// A corpus that is drawn.
#[derive(Debug)]
pub struct SyntheticCorpus {
    metadata: CorpusMetadata,
    scene: SyntheticScene,
}

impl SyntheticCorpus {
    #[verifier::type_invariant]
    spec fn inv(self) -> bool {
        &&& valid_dimensions(self.metadata.width as int, self.metadata.height as int)
        &&& self.metadata.fps > 0
        &&& self.metadata.frames > 0
    }

    pub closed spec fn meta(&self) -> CorpusMetadata {
        self.metadata
    }

    pub closed spec fn shows(&self) -> SyntheticScene {
        self.scene
    }

    fn check_frame(&self, index: usize, len: usize) -> (res: Result<(), CorpusError>)
        ensures
            res == match synthetic_fault(*self, index, len as nat) {
                Some(err) => Err::<(), CorpusError>(err),
                None => Ok::<(), CorpusError>(()),
            },
    {
        proof {
            use_type_invariant(self);
            law_valid_frames_fit(self.metadata.width as int, self.metadata.height as int);
            lemma_frame_len(self.metadata.width as int, self.metadata.height as int);
        }
        if index >= self.metadata.frames {
            return Err(CorpusError::SyntheticIndex);
        }
        let expected: usize = checked_frame_bytes(self.metadata.width, self.metadata.height)?;
        if len != expected {
            return Err(CorpusError::SyntheticLength);
        }
        Ok(())
    }

    /// Draws frame `index`; returns its time in milliseconds.
    fn read_frame(&self, index: usize, bgra: &mut [u8]) -> (res: Result<u64, CorpusError>)
        ensures
            match res {
                Ok(millis) => {
                    &&& synthetic_fault(*self, index, old(bgra)@.len()) is None
                    &&& millis == synthetic_time(self.meta().fps, index)
                    &&& is_frame(final(bgra)@, self.meta().width as int, self.meta().height as int)
                    &&& forall|x: int, y: int|
                        0 <= x < self.meta().width && 0 <= y < self.meta().height ==> #[trigger] pixel(
                            final(bgra)@,
                            self.meta().width as int,
                            x,
                            y,
                        ) == synthetic_pixel(
                            self.meta().width as int,
                            self.meta().height as int,
                            index as int,
                            self.meta().frames as int,
                            self.shows(),
                            x,
                            y,
                        )
                },
                Err(err) => {
                    &&& synthetic_fault(*self, index, old(bgra)@.len()) == Some(err)
                    &&& final(bgra)@ == old(bgra)@
                },
            },
    {
        proof {
            use_type_invariant(self);
            law_valid_frames_fit(self.metadata.width as int, self.metadata.height as int);
            lemma_frame_len(self.metadata.width as int, self.metadata.height as int);
        }
        self.check_frame(index, bgra.len())?;
        render_synthetic_frame(
            bgra,
            self.metadata.width,
            self.metadata.height,
            index,
            self.metadata.frames,
            self.scene,
        );
        Ok(saturating_mul(index as u64, 1_000) / self.metadata.fps as u64)
    }
}

/// Why a synthetic frame cannot be drawn into a buffer, if so.
pub open spec fn synthetic_fault(corpus: SyntheticCorpus, index: usize, len: nat) -> Option<CorpusError> {
    let meta = corpus.meta();
    if index >= meta.frames {
        Some(CorpusError::SyntheticIndex)
    } else if len != meta.width * meta.height * 4 {
        Some(CorpusError::SyntheticLength)
    } else {
        None
    }
}

/// When a synthetic frame is shown, in milliseconds.
pub open spec fn synthetic_time(fps: u32, index: usize) -> int {
    saturating_product(index as int, 1_000) as int / fps as int
}

/// A recording.
#[derive(Debug)]
pub struct RecordedCorpus {
    metadata: CorpusMetadata,
    frame_bytes: usize,
}

impl RecordedCorpus {
    #[verifier::type_invariant]
    spec fn inv(self) -> bool {
        &&& valid_dimensions(self.metadata.width as int, self.metadata.height as int)
        &&& self.frame_bytes == self.metadata.width * self.metadata.height * 4
        &&& self.frame_bytes <= MAX_FRAME_BYTES
    }

    pub closed spec fn meta(&self) -> CorpusMetadata {
        self.metadata
    }

    /// Reads the header of a recording that is `file_len` bytes long.
    fn open(name: &str, header: &[u8], file_len: u64) -> (res: Result<RecordedCorpus, CorpusError>)
        ensures
            match res {
                Ok(corpus) => {
                    &&& header_fault(header@, file_len) is None
                    &&& describes(corpus.meta(), name@, header@)
                },
                Err(err) => header_fault(header@, file_len) == Some(err),
            },
    {
        if header.len() < 8 {
            return Err(CorpusError::UnexpectedEof);
        }
        let same = header[0] == 0x52 && header[1] == 0x41 && header[2] == 0x53 && header[3] == 0x43
            && header[4] == 0x42 && header[5] == 0x47 && header[6] == 0x52 && header[7] == 0x31;
        assert(same == (header@.take(8) == corpus_magic())) by {
            if same {
                assert(header@.take(8) =~= corpus_magic());
            } else {
                assert(forall|i: int| 0 <= i < 8 ==> header@.take(8)[i] == header@[i]);
            }
        }
        if !same {
            return Err(CorpusError::Magic);
        }
        if header.len() < 12 {
            return Err(CorpusError::UnexpectedEof);
        }
        let version: u32 = le32_at(header, 8);
        if version != CORPUS_VERSION {
            return Err(CorpusError::Version);
        }
        if header.len() < 28 {
            return Err(CorpusError::UnexpectedEof);
        }
        let width: usize = le32_at(header, 12) as usize;
        let height: usize = le32_at(header, 16) as usize;
        let fps: u32 = le32_at(header, 20);
        let frames: usize = le32_at(header, 24) as usize;
        validate_dimensions(width, height)?;
        if fps == 0 || frames == 0 {
            return Err(CorpusError::Timing);
        }
        proof {
            law_valid_frames_fit(width as int, height as int);
        }
        let bytes: usize = checked_frame_bytes(width, height)?;
        let record_bytes: u64 = FRAME_TIMESTAMP_SIZE + bytes as u64;
        assert(record_bytes * frames <= 0x4000_0008 * 0xffff_ffff) by (nonlinear_arith)
            requires
                record_bytes <= 0x4000_0008,
                frames <= 0xffff_ffff,
        ;
        let expected_len: u64 = HEADER_SIZE + record_bytes * frames as u64;
        if file_len != expected_len {
            return Err(CorpusError::Size);
        }
        Ok(
            RecordedCorpus {
                metadata: CorpusMetadata { name: name.to_owned(), width, height, fps, frames },
                frame_bytes: bytes,
            },
        )
    }

    fn check_frame(&self, index: usize, len: usize) -> (res: Result<(), CorpusError>)
        ensures
            res == match request_fault(self.meta(), index, len as nat) {
                Some(err) => Err::<(), CorpusError>(err),
                None => Ok::<(), CorpusError>(()),
            },
    {
        proof {
            use_type_invariant(self);
        }
        if index >= self.metadata.frames || len != self.frame_bytes {
            return Err(CorpusError::FrameRequest);
        }
        Ok(())
    }

    /// Takes the pixels and the time, in milliseconds, out of a record.
    fn read_frame(&self, index: usize, record: &[u8], bgra: &mut [u8]) -> (res: Result<u64, CorpusError>)
        ensures
            match res {
                Ok(millis) => {
                    &&& recorded_fault(self.meta(), index, record@.len(), old(bgra)@.len()) is None
                    &&& millis == le_value(record@.take(8))
                    &&& final(bgra)@ == record@.subrange(8, 8 + old(bgra)@.len() as int)
                },
                Err(err) => {
                    &&& recorded_fault(self.meta(), index, record@.len(), old(bgra)@.len()) == Some(
                        err,
                    )
                    &&& final(bgra)@ == old(bgra)@
                },
            },
    {
        proof {
            use_type_invariant(self);
        }
        self.check_frame(index, bgra.len())?;
        if record.len() < 8 || record.len() - 8 < self.frame_bytes {
            return Err(CorpusError::UnexpectedEof);
        }
        assert(record@.subrange(0, 8) =~= record@.take(8));
        let millis: u64 = le64_at(record, 0);
        let mut i: usize = 0;
        while i < bgra.len()
            invariant
                i <= bgra.len(),
                bgra@.len() == old(bgra)@.len(),
                8 + bgra.len() <= record.len(),
                forall|k: int| 0 <= k < i ==> #[trigger] bgra@[k] == record@[k + 8],
            decreases bgra.len() - i,
        {
            bgra[i] = record[i + 8];
            i += 1;
        }
        assert(bgra@ =~= record@.subrange(8, 8 + old(bgra)@.len() as int));
        Ok(millis)
    }
}

/// A number of a recording's header.
pub open spec fn header_field(header: Seq<u8>, at: int) -> nat {
    le_value(header.subrange(at, at + 4))
}

/// Why a file is no recording, if so.
pub open spec fn header_fault(header: Seq<u8>, file_len: u64) -> Option<CorpusError> {
    let width = header_field(header, 12);
    let height = header_field(header, 16);
    let fps = header_field(header, 20);
    let frames = header_field(header, 24);
    if header.len() < 8 {
        Some(CorpusError::UnexpectedEof)
    } else if header.take(8) != corpus_magic() {
        Some(CorpusError::Magic)
    } else if header.len() < 12 {
        Some(CorpusError::UnexpectedEof)
    } else if header_field(header, 8) != CORPUS_VERSION {
        Some(CorpusError::Version)
    } else if header.len() < HEADER_SIZE {
        Some(CorpusError::UnexpectedEof)
    } else if !valid_dimensions(width as int, height as int) {
        Some(CorpusError::Dimensions)
    } else if fps == 0 || frames == 0 {
        Some(CorpusError::Timing)
    } else if file_len != HEADER_SIZE + (FRAME_TIMESTAMP_SIZE + width * height * 4) * frames {
        Some(CorpusError::Size)
    } else {
        None
    }
}

/// Whether metadata says what a recording's header says.
pub open spec fn describes(meta: CorpusMetadata, name: Seq<char>, header: Seq<u8>) -> bool {
    &&& meta.name@ == name
    &&& meta.width == header_field(header, 12)
    &&& meta.height == header_field(header, 16)
    &&& meta.fps == header_field(header, 20)
    &&& meta.frames == header_field(header, 24)
}

/// Why a frame of a recording cannot be read into a buffer, if so.
pub open spec fn request_fault(meta: CorpusMetadata, index: usize, len: nat) -> Option<CorpusError> {
    if index >= meta.frames || len != meta.width * meta.height * 4 {
        Some(CorpusError::FrameRequest)
    } else {
        None
    }
}

/// Why a frame cannot be taken out of a record, if so.
pub open spec fn recorded_fault(
    meta: CorpusMetadata,
    index: usize,
    record_len: nat,
    len: nat,
) -> Option<CorpusError> {
    if request_fault(meta, index, len) is Some {
        request_fault(meta, index, len)
    } else if record_len < 8 + len {
        Some(CorpusError::UnexpectedEof)
    } else {
        None
    }
}

#[derive(Debug)]
pub enum Corpus {
    Synthetic(SyntheticCorpus),
    Recorded(RecordedCorpus),
}

impl Corpus {
    pub open spec fn meta(&self) -> CorpusMetadata {
        match self {
            Corpus::Synthetic(corpus) => corpus.meta(),
            Corpus::Recorded(corpus) => corpus.meta(),
        }
    }

    pub fn synthetic(
        width: usize,
        height: usize,
        fps: u32,
        frames: usize,
        scene: SyntheticScene,
    ) -> (res: Result<Corpus, CorpusError>)
        ensures
            match res {
                Ok(corpus) => {
                    &&& valid_dimensions(width as int, height as int)
                    &&& fps != 0 && frames != 0
                    &&& corpus is Synthetic
                    &&& corpus->Synthetic_0.shows() == scene
                    &&& corpus.meta().name@ == synthetic_name(scene)
                    &&& corpus.meta().width == width
                    &&& corpus.meta().height == height
                    &&& corpus.meta().fps == fps
                    &&& corpus.meta().frames == frames
                },
                Err(err) => if !valid_dimensions(width as int, height as int) {
                    err == CorpusError::Dimensions
                } else {
                    (fps == 0 || frames == 0) && err == CorpusError::SyntheticTiming
                },
            },
    {
        validate_dimensions(width, height)?;
        if fps == 0 || frames == 0 {
            return Err(CorpusError::SyntheticTiming);
        }
        let mut name = "synthetic-".to_owned();
        name.append(scene.label());
        name.append("-v1");
        Ok(
            Corpus::Synthetic(
                SyntheticCorpus {
                    metadata: CorpusMetadata { name, width, height, fps, frames },
                    scene,
                },
            ),
        )
    }

    /// A recording, from the first bytes of its file and the file's length.
    pub fn recorded(name: &str, header: &[u8], file_len: u64) -> (res: Result<Corpus, CorpusError>)
        ensures
            match res {
                Ok(corpus) => {
                    &&& header_fault(header@, file_len) is None
                    &&& corpus is Recorded
                    &&& describes(corpus.meta(), name@, header@)
                },
                Err(err) => header_fault(header@, file_len) == Some(err),
            },
    {
        Ok(Corpus::Recorded(RecordedCorpus::open(name, header, file_len)?))
    }

    pub fn metadata(&self) -> (metadata: &CorpusMetadata)
        ensures
            *metadata == self.meta(),
    {
        match self {
            Corpus::Synthetic(corpus) => &corpus.metadata,
            Corpus::Recorded(corpus) => &corpus.metadata,
        }
    }

    /// Where in its file the first record of a recording starts; nothing for a
    /// corpus without a file.
    pub fn reset(&self) -> (start: Option<u64>)
        ensures
            start == if self is Recorded {
                Some(HEADER_SIZE)
            } else {
                None
            },
    {
        match self {
            Corpus::Synthetic(_) => None,
            Corpus::Recorded(_) => Some(HEADER_SIZE),
        }
    }

    /// The bytes of the next record of a recording; none for a corpus without a
    /// file.
    pub fn record_len(&self) -> (len: usize)
        ensures
            len == if self is Recorded {
                8 + self.meta().width * self.meta().height * 4
            } else {
                0
            },
    {
        match self {
            Corpus::Synthetic(_) => 0,
            Corpus::Recorded(corpus) => {
                proof {
                    use_type_invariant(corpus);
                }
                8 + corpus.frame_bytes
            },
        }
    }

    /// Checks that frame `index` can be read into a buffer of `len` bytes, before
    /// its record is read.
    pub fn check_frame(&self, index: usize, len: usize) -> (res: Result<(), CorpusError>)
        ensures
            res == match (match self {
                Corpus::Synthetic(corpus) => synthetic_fault(*corpus, index, len as nat),
                Corpus::Recorded(_) => request_fault(self.meta(), index, len as nat),
            }) {
                Some(err) => Err::<(), CorpusError>(err),
                None => Ok::<(), CorpusError>(()),
            },
    {
        match self {
            Corpus::Synthetic(corpus) => corpus.check_frame(index, len),
            Corpus::Recorded(corpus) => corpus.check_frame(index, len),
        }
    }

    /// Draws frame `index`, or takes it out of the record that was read; returns
    /// its time in milliseconds.
    pub fn read_frame(&self, index: usize, record: &[u8], bgra: &mut [u8]) -> (res: Result<
        u64,
        CorpusError,
    >)
        ensures
            final(bgra)@.len() == old(bgra)@.len(),
            match self {
                Corpus::Synthetic(corpus) => match res {
                    Ok(millis) => {
                        &&& synthetic_fault(*corpus, index, old(bgra)@.len()) is None
                        &&& millis == synthetic_time(self.meta().fps, index)
                        &&& forall|x: int, y: int|
                            0 <= x < self.meta().width && 0 <= y < self.meta().height ==> #[trigger] pixel(
                                final(bgra)@,
                                self.meta().width as int,
                                x,
                                y,
                            ) == synthetic_pixel(
                                self.meta().width as int,
                                self.meta().height as int,
                                index as int,
                                self.meta().frames as int,
                                corpus.shows(),
                                x,
                                y,
                            )
                    },
                    Err(err) => {
                        &&& synthetic_fault(*corpus, index, old(bgra)@.len()) == Some(err)
                        &&& final(bgra)@ == old(bgra)@
                    },
                },
                Corpus::Recorded(_) => match res {
                    Ok(millis) => {
                        &&& recorded_fault(self.meta(), index, record@.len(), old(bgra)@.len()) is None
                        &&& millis == le_value(record@.take(8))
                        &&& final(bgra)@ == record@.subrange(8, 8 + old(bgra)@.len() as int)
                    },
                    Err(err) => {
                        &&& recorded_fault(self.meta(), index, record@.len(), old(bgra)@.len()) == Some(
                            err,
                        )
                        &&& final(bgra)@ == old(bgra)@
                    },
                },
            },
    {
        match self {
            Corpus::Synthetic(corpus) => {
                proof {
                    use_type_invariant(corpus);
                    lemma_frame_len(corpus.metadata.width as int, corpus.metadata.height as int);
                }
                corpus.read_frame(index, bgra)
            },
            Corpus::Recorded(corpus) => corpus.read_frame(index, record, bgra),
        }
    }
}

// ---------------------------------------------------------------------------
// Recording
// ---------------------------------------------------------------------------

/// The header of a recording.
pub open spec fn header_bytes(width: usize, height: usize, fps: u32, frames: usize) -> Seq<u8> {
    corpus_magic() + le_bytes(CORPUS_VERSION as nat, 4) + le_bytes(
        width as nat % 0x1_0000_0000,
        4,
    ) + le_bytes(height as nat % 0x1_0000_0000, 4) + le_bytes(fps as nat, 4) + le_bytes(
        frames as nat % 0x1_0000_0000,
        4,
    )
}

fn low32(value: usize) -> (low: u32)
    ensures
        low == value as nat % 0x1_0000_0000,
{
    (value as u64 % 0x1_0000_0000) as u32
}

/// Appends the header of a recording.
pub fn write_header(out: &mut Vec<u8>, width: usize, height: usize, fps: u32, frames: usize)
    ensures
        final(out)@ == old(out)@ + header_bytes(width, height, fps, frames),
{
    out.push(0x52);
    out.push(0x41);
    out.push(0x53);
    out.push(0x43);
    out.push(0x42);
    out.push(0x47);
    out.push(0x52);
    out.push(0x31);
    assert(out@ =~= old(out)@ + corpus_magic());
    push_le32(out, CORPUS_VERSION);
    push_le32(out, low32(width));
    push_le32(out, low32(height));
    push_le32(out, fps);
    push_le32(out, low32(frames));
    assert(out@ =~= old(out)@ + header_bytes(width, height, fps, frames));
}

/// A record: the time stamp, then the pixels.
pub open spec fn record_bytes(millis: u64, bgra: Seq<u8>) -> Seq<u8> {
    le_bytes(millis as nat, 8) + bgra
}

/// A record of a frame.
pub fn frame_record(millis: u64, bgra: &[u8]) -> (record: Vec<u8>)
    ensures
        record@ == record_bytes(millis, bgra@),
{
    let mut record: Vec<u8> = Vec::new();
    push_le64(&mut record, millis);
    record.extend_from_slice(bgra);
    assert(record@ =~= record_bytes(millis, bgra@));
    record
}

/// A recording with a valid size, a frame rate and as many records as its header
/// says opens, with what was written into its header.
pub proof fn law_header_round_trip(width: usize, height: usize, fps: u32, frames: usize, file_len: u64)
    requires
        valid_dimensions(width as int, height as int),
        fps > 0,
        0 < frames <= u32::MAX,
        file_len == HEADER_SIZE + (FRAME_TIMESTAMP_SIZE + width * height * 4) * frames,
    ensures
        ({
            let header = header_bytes(width, height, fps, frames);
            &&& header.len() == HEADER_SIZE
            &&& header_fault(header, file_len) is None
            &&& header_field(header, 12) == width
            &&& header_field(header, 16) == height
            &&& header_field(header, 20) == fps
            &&& header_field(header, 24) == frames
        }),
{
    broadcast use lemma_le_len;

    lemma_radix();
    let header = header_bytes(width, height, fps, frames);
    assert(header.take(8) =~= corpus_magic());
    lemma_header_field(header, 8, CORPUS_VERSION as nat);
    lemma_header_field(header, 12, width as nat);
    lemma_header_field(header, 16, height as nat);
    lemma_header_field(header, 20, fps as nat);
    lemma_header_field(header, 24, frames as nat);
}

proof fn lemma_header_field(header: Seq<u8>, at: int, value: nat)
    requires
        0 <= at && at + 4 <= header.len(),
        value < 0x1_0000_0000,
        header.subrange(at, at + 4) =~= le_bytes(value, 4),
    ensures
        header_field(header, at) == value,
{
    lemma_radix();
    law_le_value_of_bytes(value, 4);
}

/// The exact frame that was recorded is replayed, with its time.
pub proof fn law_record_replays(millis: u64, bgra: Seq<u8>)
    ensures
        le_value(record_bytes(millis, bgra).take(8)) == millis,
        record_bytes(millis, bgra).subrange(8, 8 + bgra.len() as int) == bgra,
        record_bytes(millis, bgra).len() == 8 + bgra.len(),
{
    broadcast use lemma_le_len;

    lemma_radix();
    let record = record_bytes(millis, bgra);
    assert(record.take(8) =~= le_bytes(millis as nat, 8));
    law_le_value_of_bytes(millis as nat, 8);
    assert(record.subrange(8, 8 + bgra.len() as int) =~= bgra);
}

/// The records of a recording, one after the other.
pub open spec fn records_bytes(times: Seq<u64>, frames: Seq<Seq<u8>>) -> Seq<u8>
    decreases frames.len(),
{
    if frames.len() == 0 {
        seq![]
    } else {
        records_bytes(times.drop_last(), frames.drop_last()) + record_bytes(times.last(), frames.last())
    }
}

/// The record of a frame stands at its place among the records.
proof fn lemma_record_at(times: Seq<u64>, frames: Seq<Seq<u8>>, size: int, index: int)
    requires
        times.len() == frames.len(),
        forall|i: int| 0 <= i < frames.len() ==> (#[trigger] frames[i]).len() + 8 == size,
        0 <= index < frames.len(),
    ensures
        records_bytes(times, frames).len() == size * frames.len(),
        0 <= size * index <= size * (index + 1) <= size * frames.len(),
        records_bytes(times, frames).subrange(size * index, size * (index + 1)) == record_bytes(
            times[index],
            frames[index],
        ),
    decreases frames.len(),
{
    broadcast use lemma_le_len;

    let n = frames.len() as int;
    let head = frames.drop_last();
    let before = records_bytes(times.drop_last(), head);
    let all = records_bytes(times, frames);
    assert(frames[n - 1].len() + 8 == size);
    assert forall|i: int| 0 <= i < head.len() implies (#[trigger] head[i]).len() + 8 == size by {
        assert(head[i] == frames[i]);
    }
    if n == 1 {
        assert(before.len() == 0);
    } else {
        lemma_record_at(times.drop_last(), head, size, if index < n - 1 { index } else { 0 });
    }
    assert(size * n == size * (n - 1) + size) by (nonlinear_arith);
    assert(size * (n - 1) == before.len()) by (nonlinear_arith)
        requires
            n == 1 ==> before.len() == 0,
            n != 1 ==> before.len() == size * (n - 1),
    ;
    assert(0 <= size * index <= size * (index + 1) <= size * n) by (nonlinear_arith)
        requires
            0 <= index < n,
            0 <= size,
    ;
    let found = all.subrange(size * index, size * (index + 1));
    if index < n - 1 {
        assert(found =~= before.subrange(size * index, size * (index + 1)));
    } else {
        assert(found =~= record_bytes(times[index], frames[index]));
    }
}

/// The exact frames that were recorded are replayed: a file made of a header and
/// as many records as it says opens, and the record that stands at the place of
/// a frame gives back the frame and its time.
pub proof fn law_recording_replays(
    width: usize,
    height: usize,
    fps: u32,
    times: Seq<u64>,
    frames: Seq<Seq<u8>>,
    index: int,
)
    requires
        valid_dimensions(width as int, height as int),
        fps > 0,
        times.len() == frames.len(),
        frames.len() <= u32::MAX,
        forall|i: int| 0 <= i < frames.len() ==> (#[trigger] frames[i]).len() == width * height * 4,
        0 <= index < frames.len(),
    ensures
        ({
            let file = header_bytes(width, height, fps, frames.len() as usize) + records_bytes(
                times,
                frames,
            );
            let size = FRAME_TIMESTAMP_SIZE + width * height * 4;
            let record = file.subrange(HEADER_SIZE + size * index, HEADER_SIZE + size * (index + 1));
            &&& file.len() <= u64::MAX
            &&& header_fault(file.take(HEADER_SIZE as int), file.len() as u64) is None
            &&& header_field(file, 24) == frames.len()
            &&& le_value(record.take(8)) == times[index]
            &&& record.subrange(8, size) == frames[index]
        }),
{
    let len = (width * height * 4) as nat;
    let size = (8 + len) as int;
    let count = frames.len();
    law_valid_frames_fit(width as int, height as int);
    lemma_record_at(times, frames, size, index);
    assert(0 <= size * count <= 0x4000_0008 * 0xffff_ffff) by (nonlinear_arith)
        requires
            0 <= size <= 0x4000_0008,
            0 <= count <= 0xffff_ffff,
    ;
    let header = header_bytes(width, height, fps, count as usize);
    let records = records_bytes(times, frames);
    let file = header + records;
    law_header_round_trip(width, height, fps, count as usize, (HEADER_SIZE + size * count) as u64);
    assert(file.take(HEADER_SIZE as int) =~= header);
    assert(file.subrange(24, 28) =~= header.subrange(24, 28));
    let record = record_bytes(times[index], frames[index]);
    assert(record == records.subrange(size * index, size * (index + 1)));
    assert(0 <= size * index <= size * (index + 1)) by (nonlinear_arith)
        requires
            0 <= index,
            0 <= size,
    ;
    assert(file.subrange(HEADER_SIZE + size * index, HEADER_SIZE + size * (index + 1)) =~= record);
    law_record_replays(times[index], frames[index]);
}

/// Whether a recording may have that many frames at that rate.
pub fn validate_record(frame_count: usize, fps: u32) -> (res: Result<(), CorpusError>)
    ensures
        match res {
            Ok(()) => 0 < frame_count <= u32::MAX && fps != 0,
            Err(err) => {
                &&& frame_count == 0 || frame_count > u32::MAX || fps == 0
                &&& err == CorpusError::RecordTiming
            },
        },
{
    if frame_count == 0 || frame_count as u64 > u32::MAX as u64 || fps == 0 {
        return Err(CorpusError::RecordTiming);
    }
    Ok(())
}

/// The display that is recorded: the one-based number asked for, else the first
/// primary one, else the first.
pub open spec fn selected_display(primary: Seq<bool>, requested: Option<usize>) -> Result<
    int,
    CorpusError,
> {
    if primary.len() == 0 {
        Err(CorpusError::NoDisplays)
    } else {
        match requested {
            Some(number) => if 1 <= number <= primary.len() {
                Ok(number - 1)
            } else {
                Err(CorpusError::DisplayIndex)
            },
            None => Ok(first_set(primary)),
        }
    }
}

/// The place of the first mark that is set, else the first place.
pub open spec fn first_set(marks: Seq<bool>) -> int {
    if exists|i: int| 0 <= i < marks.len() && marks[i] {
        choose|i: int|
            0 <= i < marks.len() && #[trigger] marks[i] && forall|j: int| 0 <= j < i ==> !marks[j]
    } else {
        0
    }
}

/// Chooses the display to record; `primary` says which ones are primary.
pub fn select_display(primary: &[bool], requested: Option<usize>) -> (res: Result<usize, CorpusError>)
    ensures
        match res {
            Ok(place) => {
                &&& selected_display(primary@, requested) == Ok::<int, CorpusError>(place as int)
                &&& place < primary.len()
            },
            Err(err) => selected_display(primary@, requested) == Err::<int, CorpusError>(err),
        },
{
    if primary.len() == 0 {
        return Err(CorpusError::NoDisplays);
    }
    match requested {
        Some(number) => {
            if number == 0 || number > primary.len() {
                Err(CorpusError::DisplayIndex)
            } else {
                Ok(number - 1)
            }
        },
        None => {
            let mut i: usize = 0;
            while i < primary.len()
                invariant
                    i <= primary.len(),
                    primary.len() > 0,
                    requested is None,
                    forall|j: int| 0 <= j < i ==> !primary@[j],
                decreases primary.len() - i,
            {
                if primary[i] {
                    proof {
                        let marks = primary@;
                        let place = first_set(marks);
                        assert(marks[i as int]);
                        assert(0 <= place < marks.len() && marks[place] && forall|j: int|
                            0 <= j < place ==> !marks[j]);
                        assert(place == i);
                    }
                    return Ok(i);
                }
                i += 1;
            }
            Ok(0)
        },
    }
}

/// A display as the capture API describes it.
#[derive(Debug)]
pub struct CapturedDisplay {
    pub name: String,
    pub width: usize,
    pub height: usize,
    pub origin: (i32, i32),
    pub primary: bool,
}

/// A display with the number by which it is chosen.
#[derive(Debug, PartialEq, Eq)]
pub struct DisplayInfo {
    pub index: usize,
    pub name: String,
    pub width: usize,
    pub height: usize,
    pub origin: (i32, i32),
    pub primary: bool,
}

/// Whether a listed display is the captured one under its one-based number.
pub open spec fn is_listed(info: DisplayInfo, display: CapturedDisplay, place: int) -> bool {
    &&& info.index == place + 1
    &&& info.name@ == display.name@
    &&& info.width == display.width
    &&& info.height == display.height
    &&& info.origin == display.origin
    &&& info.primary == display.primary
}

/// Numbers the displays in capture order, from one.
pub fn display_inventory(displays: &[CapturedDisplay]) -> (infos: Vec<DisplayInfo>)
    ensures
        infos.len() == displays.len(),
        forall|i: int| 0 <= i < infos.len() ==> is_listed(#[trigger] infos@[i], displays@[i], i),
{
    let mut infos: Vec<DisplayInfo> = Vec::new();
    let mut i: usize = 0;
    while i < displays.len()
        invariant
            i <= displays.len(),
            infos.len() == i,
            forall|k: int| 0 <= k < i ==> is_listed(#[trigger] infos@[k], displays@[k], k),
        decreases displays.len() - i,
    {
        let info = DisplayInfo {
            index: i + 1,
            name: displays[i].name.clone(),
            width: displays[i].width,
            height: displays[i].height,
            origin: displays[i].origin,
            primary: displays[i].primary,
        };
        infos.push(info);
        i += 1;
    }
    infos
}

/// How long a capture waits for a frame, in milliseconds.
pub fn capture_poll_ms(fps: u32) -> (millis: u64)
    ensures
        millis == 1_000int / (if fps == 0 { 1int } else { fps as int }),
{
    let rate: u32 = if fps == 0 { 1 } else { fps };
    (1_000 / rate) as u64
}

/// The progress of a recording; times are readings of a monotonic clock in
/// nanoseconds.
#[derive(Clone, Copy, Debug, PartialEq, Eq, Structural)]
pub struct RecordProgress {
    pub written: usize,
    pub last_frame: u64,
}

impl RecordProgress {
    pub fn new(now: u64) -> (progress: RecordProgress)
        ensures
            progress == (RecordProgress { written: 0, last_frame: now }),
    {
        RecordProgress { written: 0, last_frame: now }
    }

    /// Takes note of a frame.
    pub fn frame_written(&mut self, now: u64)
        requires
            old(self).written < usize::MAX,
        ensures
            *final(self) == (RecordProgress {
                written: (old(self).written + 1) as usize,
                last_frame: now,
            }),
    {
        self.written = self.written + 1;
        self.last_frame = now;
    }

    /// Whether the capture may stay without a changed frame any longer.
    pub fn check_idle(&self, now: u64, idle_timeout_ms: u64) -> (res: Result<(), CorpusError>)
        ensures
            match res {
                Ok(()) => !has_elapsed(self.last_frame, now, idle_timeout_ms),
                Err(err) => has_elapsed(self.last_frame, now, idle_timeout_ms) && err
                    == CorpusError::IdleTimeout,
            },
    {
        if elapsed_at_least(self.last_frame, now, idle_timeout_ms) {
            Err(CorpusError::IdleTimeout)
        } else {
            Ok(())
        }
    }
}

/// The file name of a recording where none is given.
pub fn default_record_path() -> (path: String)
    ensures
        path@ == "av1-screen-corpus.rasc"@,
{
    "av1-screen-corpus.rasc".to_owned()
}

// ---------------------------------------------------------------------------
// Captured pixels
// ---------------------------------------------------------------------------

/// A captured frame as the capture API hands it out.
#[derive(Clone, Copy, Debug)]
pub struct PixelBuffer<'a> {
    pub width: usize,
    pub height: usize,
    pub data: &'a [u8],
    pub stride: &'a [usize],
    pub format: PixelFormat,
    pub bytes_per_pixel: usize,
}

/// The product, or the largest `usize` where it does not fit.
pub open spec fn saturated(a: int, b: int) -> int {
    if a * b > usize::MAX {
        usize::MAX as int
    } else {
        a * b
    }
}

/// The bytes that a row takes; of a frame without rows no more than the machine
/// can count.
pub open spec fn row_bytes(source: PixelBuffer) -> int {
    if source.height == 0 {
        saturated(source.width as int, source.bytes_per_pixel as int)
    } else {
        source.width * source.bytes_per_pixel
    }
}

/// Why a captured frame cannot be copied into a buffer of `len` bytes, if so.
pub open spec fn capture_fault(source: PixelBuffer, len: nat) -> Option<CorpusError> {
    if source.stride@.len() == 0 {
        Some(CorpusError::NoStride)
    } else {
        let stride = source.stride@[0];
        if source.bytes_per_pixel == 0 || stride < row_bytes(source) || source.data@.len() < stride
            * source.height {
            Some(CorpusError::PixelBuffer)
        } else {
            match frame_bytes(source.width as int, source.height as int) {
                Err(err) => Some(err),
                Ok(bytes) => if len != bytes {
                    Some(CorpusError::PixelBuffer)
                } else if source.height > 0 && !is_packed(source.format) {
                    Some(CorpusError::UnsupportedFormat(source.format))
                } else {
                    None
                },
            }
        }
    }
}

/// Whether a format holds whole pixels one after the other.
pub open spec fn is_packed(format: PixelFormat) -> bool {
    format == PixelFormat::Bgra || format == PixelFormat::Rgba || format == PixelFormat::Rgb565Le
}

/// Whether the pixel size is that of the format.
pub open spec fn pixel_size_fits(source: PixelBuffer) -> bool {
    match source.format {
        PixelFormat::Bgra | PixelFormat::Rgba => source.bytes_per_pixel == 4,
        PixelFormat::Rgb565Le => source.bytes_per_pixel == 2,
        _ => true,
    }
}

/// A five-bit channel as eight bits.
pub open spec fn expanded5(value: int) -> u8 {
    (value * 8 + value / 4) as u8
}

/// A six-bit channel as eight bits.
pub open spec fn expanded6(value: int) -> u8 {
    (value * 4 + value / 16) as u8
}

/// The pixel that the bytes from `at` on hold.
pub open spec fn packed_pixel(data: Seq<u8>, format: PixelFormat, at: int) -> Bgra {
    if format == PixelFormat::Bgra {
        Bgra { b: data[at], g: data[at + 1], r: data[at + 2], a: data[at + 3] }
    } else if format == PixelFormat::Rgba {
        Bgra { b: data[at + 2], g: data[at + 1], r: data[at], a: data[at + 3] }
    } else {
        let value = data[at] as int + data[at + 1] as int * 256;
        Bgra {
            b: expanded5(value % 32),
            g: expanded6(value / 32 % 64),
            r: expanded5(value / 2048 % 32),
            a: 255,
        }
    }
}

/// The pixel at a place of a captured frame.
pub open spec fn captured_pixel(source: PixelBuffer, x: int, y: int) -> Bgra {
    packed_pixel(
        source.data@,
        source.format,
        y * source.stride@[0] + x * source.bytes_per_pixel,
    )
}

fn read_packed(data: &[u8], format: PixelFormat, at: usize) -> (color: Bgra)
    requires
        is_packed(format),
        at + (if format == PixelFormat::Rgb565Le { 2int } else { 4int }) <= data.len(),
    ensures
        color == packed_pixel(data@, format, at as int),
{
    match format {
        PixelFormat::Bgra => Bgra { b: data[at], g: data[at + 1], r: data[at + 2], a: data[at + 3] },
        PixelFormat::Rgba => Bgra { b: data[at + 2], g: data[at + 1], r: data[at], a: data[at + 3] },
        _ => {
            let value: u32 = data[at] as u32 + data[at + 1] as u32 * 256;
            let r: u32 = value / 2048 % 32;
            let g: u32 = value / 32 % 64;
            let b: u32 = value % 32;
            Bgra {
                b: (b * 8 + b / 4) as u8,
                g: (g * 4 + g / 16) as u8,
                r: (r * 8 + r / 4) as u8,
                a: 255,
            }
        },
    }
}

/// Copies a captured frame into a tight BGRA buffer.
pub fn copy_pixel_buffer_to_bgra(source: &PixelBuffer, output: &mut [u8]) -> (res: Result<
    (),
    CorpusError,
>)
    requires
        pixel_size_fits(*source),
    ensures
        match res {
            Ok(()) => {
                &&& capture_fault(*source, old(output)@.len()) is None
                &&& is_frame(final(output)@, source.width as int, source.height as int)
                &&& forall|x: int, y: int|
                    0 <= x < source.width && 0 <= y < source.height ==> #[trigger] pixel(
                        final(output)@,
                        source.width as int,
                        x,
                        y,
                    ) == captured_pixel(*source, x, y)
            },
            Err(err) => {
                &&& capture_fault(*source, old(output)@.len()) == Some(err)
                &&& final(output)@ == old(output)@
            },
        },
{
    let width: usize = source.width;
    let height: usize = source.height;
    let data = source.data;
    if source.stride.len() == 0 {
        return Err(CorpusError::NoStride);
    }
    let stride: usize = source.stride[0];
    let size: usize = source.bytes_per_pixel;
    if size == 0 {
        return Err(CorpusError::PixelBuffer);
    }
    let needed: usize = match width.checked_mul(size) {
        Some(bytes) => bytes,
        None => {
            if height > 0 {
                return Err(CorpusError::PixelBuffer);
            }
            usize::MAX
        },
    };
    if stride < needed {
        return Err(CorpusError::PixelBuffer);
    }
    assert(data@.len() == data.len());
    match stride.checked_mul(height) {
        Some(bytes) => {
            if data.len() < bytes {
                return Err(CorpusError::PixelBuffer);
            }
        },
        None => {
            return Err(CorpusError::PixelBuffer);
        },
    }
    let expected: usize = checked_frame_bytes(width, height)?;
    if output.len() != expected {
        return Err(CorpusError::PixelBuffer);
    }
    proof {
        lemma_frame_len(width as int, height as int);
    }
    let format = source.format;
    if height > 0 && format != PixelFormat::Bgra && format != PixelFormat::Rgba && format
        != PixelFormat::Rgb565Le {
        return Err(CorpusError::UnsupportedFormat(format));
    }
    let mut y: usize = 0;
    while y < height
        invariant
            y <= height,
            width == source.width,
            height == source.height,
            data == source.data,
            format == source.format,
            size == source.bytes_per_pixel,
            source.stride@.len() > 0,
            stride == source.stride@[0],
            height > 0 ==> is_packed(format),
            pixel_size_fits(*source),
            height > 0 ==> width * size <= stride,
            stride * height <= data.len(),
            output@.len() == old(output)@.len(),
            is_frame(output@, width as int, height as int),
            output.len() <= MAX_FRAME_BYTES,
            forall|px: int, py: int|
                0 <= px < width && 0 <= py < y ==> #[trigger] pixel(output@, width as int, px, py)
                    == captured_pixel(*source, px, py),
        decreases height - y,
    {
        proof {
            assert(y * stride + stride <= stride * height) by (nonlinear_arith)
                requires
                    y + 1 <= height,
                    0 <= stride,
            ;
        }
        let row: usize = y * stride;
        let mut x: usize = 0;
        while x < width
            invariant
                x <= width,
                y < height,
                width == source.width,
                height == source.height,
                data == source.data,
                format == source.format,
                size == source.bytes_per_pixel,
                source.stride@.len() > 0,
                stride == source.stride@[0],
                row == y * stride,
                is_packed(format),
                pixel_size_fits(*source),
                width * size <= stride,
                row + stride <= data.len(),
                output@.len() == old(output)@.len(),
                is_frame(output@, width as int, height as int),
                output.len() <= MAX_FRAME_BYTES,
                forall|px: int, py: int|
                    0 <= px < width && 0 <= py < height && (py < y || (py == y && px < x)) ==> #[trigger] pixel(
                        output@,
                        width as int,
                        px,
                        py,
                    ) == captured_pixel(*source, px, py),
            decreases width - x,
        {
            proof {
                assert(x * size + size <= width * size) by (nonlinear_arith)
                    requires
                        x + 1 <= width,
                        0 <= size,
                ;
                lemma_pixel_inside(width as int, height as int, x as int, y as int);
                assert(0 <= y * width) by (nonlinear_arith)
                    requires
                        0 <= y,
                        0 <= width,
                ;
            }
            let color = read_packed(data, format, row + x * size);
            assert(color == captured_pixel(*source, x as int, y as int));
            let at: usize = (y * width + x) * 4;
            let ghost before = output@;
            output[at] = color.b;
            output[at + 1] = color.g;
            output[at + 2] = color.r;
            output[at + 3] = color.a;
            assert forall|px: int, py: int|
                0 <= px < width && 0 <= py < height && (py < y || (py == y && px < x + 1)) implies #[trigger] pixel(
                output@,
                width as int,
                px,
                py,
            ) == captured_pixel(*source, px, py) by {
                lemma_pixel_inside(width as int, height as int, px, py);
                if px != x || py != y {
                    lemma_pixels_distinct(width as int, x as int, y as int, px, py);
                    assert(pixel(output@, width as int, px, py) == pixel(before, width as int, px, py));
                }
            }
            x += 1;
        }
        y += 1;
    }
    Ok(())
}

/// A tight BGRA capture is copied byte for byte.
pub proof fn law_tight_capture_is_copied(source: PixelBuffer, output: Seq<u8>)
    requires
        source.format == PixelFormat::Bgra,
        source.bytes_per_pixel == 4,
        source.stride@.len() > 0,
        source.stride@[0] == source.width * 4,
        source.width > 0,
        is_frame(source.data@, source.width as int, source.height as int),
        is_frame(output, source.width as int, source.height as int),
        forall|x: int, y: int|
            0 <= x < source.width && 0 <= y < source.height ==> #[trigger] pixel(
                output,
                source.width as int,
                x,
                y,
            ) == captured_pixel(source, x, y),
    ensures
        output == source.data@,
{
    let width = source.width as int;
    assert forall|x: int, y: int| 0 <= x < source.width && 0 <= y < source.height implies #[trigger] pixel(
        output,
        width,
        x,
        y,
    ) == pixel(source.data@, width, x, y) by {
        assert(y * (width * 4) == (y * width) * 4) by (nonlinear_arith);
    }
    lemma_same_pixels(output, source.data@, width, source.height as int);
}

} // verus!
