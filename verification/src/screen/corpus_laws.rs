//! What a corpus holds: the bytes of a recording, the times of its frames and
//! the pixels of a capture.
use vstd::prelude::*;

use crate::bytes::{le_bytes, le_value, lemma_le_len};
use crate::screen::corpus::{
    capture_fault, captured_pixel, frame_bytes, header_bytes, header_fault, header_field,
    law_record_replays, law_valid_frames_fit, record_bytes, recorded_fault, request_fault,
    selected_display, synthetic_time, valid_dimensions, CorpusError, CorpusMetadata, PixelBuffer,
    PixelFormat,
};

verus! {

/// A frame has from 1 to 16384 columns and as many rows.
pub proof fn law_frame_sizes(width: int, height: int)
    ensures
        valid_dimensions(width, height) <==> 1 <= width <= 16_384 && 1 <= height <= 16_384,
{
}

/// A synthetic frame is shown when `index` frames have passed at `fps` frames in
/// a second: `time` milliseconds is the last whole one that is not later.
pub proof fn law_synthetic_time(fps: u32, index: usize, time: int)
    requires
        fps > 0,
        index * 1_000 <= u64::MAX,
        time * fps <= index * 1_000 < (time + 1) * fps,
    ensures
        synthetic_time(fps, index) == time,
{
    let n = fps as int;
    let part = index * 1_000;
    assert((time + 1) * n == time * n + n) by (nonlinear_arith);
    vstd::arithmetic::div_mod::lemma_fundamental_div_mod_converse(part, n, time, part - time * n);
}

/// Synthetic frames come in order, and a second's worth of frames takes a
/// second.
pub proof fn law_synthetic_time_advances(fps: u32, index: usize, later: usize)
    requires
        fps > 0,
        index <= later,
        later + fps <= usize::MAX,
        (later + fps) * 1_000 <= u64::MAX,
    ensures
        synthetic_time(fps, 0) == 0,
        synthetic_time(fps, index) <= synthetic_time(fps, later),
        synthetic_time(fps, (later + fps) as usize) == synthetic_time(fps, later) + 1_000,
{
    let n = fps as int;
    assert(0int / n == 0) by (nonlinear_arith)
        requires
            n > 0,
    ;
    vstd::arithmetic::div_mod::lemma_div_is_ordered(index * 1_000, later * 1_000, n);
    let part = later * 1_000;
    assert((later + fps) * 1_000 == part + n * 1_000);
    vstd::arithmetic::div_mod::lemma_div_multiples_vanish_fancy(1_000, 0, n);
    let q = part / n;
    vstd::arithmetic::div_mod::lemma_fundamental_div_mod(part, n);
    assert(part + n * 1_000 == (q + 1_000) * n + part % n) by (nonlinear_arith)
        requires
            part == n * q + part % n,
    ;
    vstd::arithmetic::div_mod::lemma_fundamental_div_mod_converse(
        part + n * 1_000,
        n,
        q + 1_000,
        part % n,
    );
}

/// A display is chosen by its number, counted from one. Without a number it is
/// the first that is primary, or the first of all where none is.
pub proof fn law_display_is_chosen(primary: Seq<bool>, requested: Option<usize>, place: int)
    requires
        0 <= place < primary.len(),
    ensures
        primary.len() > 0 && requested is Some ==> (selected_display(primary, requested) == Ok::<
            int,
            CorpusError,
        >(place) <==> requested->0 == place + 1),
        requested is Some && (requested->0 == 0 || requested->0 > primary.len()) ==> selected_display(
            primary,
            requested,
        ) == Err::<int, CorpusError>(CorpusError::DisplayIndex),
        requested is None && primary[place] && (forall|i: int| 0 <= i < place ==> !primary[i])
            ==> selected_display(primary, requested) == Ok::<int, CorpusError>(place),
        requested is None && (forall|i: int| 0 <= i < primary.len() ==> !primary[i]) ==> selected_display(
            primary,
            requested,
        ) == Ok::<int, CorpusError>(0),
{
    if requested is None && primary[place] && (forall|i: int| 0 <= i < place ==> !primary[i]) {
        let chosen = choose|i: int|
            0 <= i < primary.len() && #[trigger] primary[i] && forall|j: int| 0 <= j < i ==> !primary[j];
        assert(0 <= place < primary.len() && primary[place] && forall|j: int|
            0 <= j < place ==> !primary[j]);
        assert(0 <= chosen < primary.len() && primary[chosen] && forall|j: int|
            0 <= j < chosen ==> !primary[j]);
        assert(chosen == place);
    }
}

// ---------------------------------------------------------------------------
// Captures
// ---------------------------------------------------------------------------

/// A BGRA capture is taken as it is, an RGBA one with red and blue exchanged;
/// rows start a stride apart.
pub proof fn law_capture_keeps_its_bytes(source: PixelBuffer, x: int, y: int)
    requires
        source.format == PixelFormat::Bgra || source.format == PixelFormat::Rgba,
        source.bytes_per_pixel == 4,
        source.stride@.len() > 0,
        0 <= x < source.width,
        0 <= y < source.height,
    ensures
        ({
            let at = y * source.stride@[0] + 4 * x;
            let seen = captured_pixel(source, x, y);
            let swapped = source.format == PixelFormat::Rgba;
            &&& seen.g == source.data@[at + 1]
            &&& seen.a == source.data@[at + 3]
            &&& swapped ==> seen.r == source.data@[at] && seen.b == source.data@[at + 2]
            &&& !swapped ==> seen.b == source.data@[at] && seen.r == source.data@[at + 2]
        }),
{
}

/// Whether a byte is a channel of `bits` bits with its upper bits repeated below
/// them, so that all ones become 255 and zero stays zero.
pub open spec fn spreads(channel: u8, value: int, top: int, bits_below: int) -> bool {
    &&& channel as int / bits_below == value
    &&& channel as int % bits_below == value / top
}

/// A pixel of sixteen bits, low byte first, has five bits of red at its top, six
/// of green and five of blue; each channel is spread over a byte. It is opaque.
pub proof fn law_small_pixels_are_spread(source: PixelBuffer, x: int, y: int, r: int, g: int, b: int)
    requires
        source.format == PixelFormat::Rgb565Le,
        source.bytes_per_pixel == 2,
        source.stride@.len() > 0,
        0 <= x < source.width,
        0 <= y < source.height,
        0 <= r < 32,
        0 <= g < 64,
        0 <= b < 32,
        ({
            let at = y * source.stride@[0] + 2 * x;
            source.data@[at] + 256 * source.data@[at + 1] == 2048 * r + 32 * g + b
        }),
    ensures
        ({
            let seen = captured_pixel(source, x, y);
            &&& spreads(seen.r, r, 4, 8)
            &&& spreads(seen.g, g, 16, 4)
            &&& spreads(seen.b, b, 4, 8)
            &&& seen.a == 255
        }),
{
    let value = 2048 * r + 32 * g + b;
    assert(value % 32 == b);
    assert(value / 32 == 64 * r + g);
    assert(value / 32 % 64 == g);
    assert(value / 2048 == r);
}

/// A capture of whole pixels is copied exactly if it has a stride, its rows lie
/// within it, its bytes hold all rows and the buffer is as large as the frame.
pub proof fn law_capture_is_accepted(source: PixelBuffer, len: nat)
    requires
        1 <= source.width <= 16_384,
        1 <= source.height <= 16_384,
        source.format == PixelFormat::Bgra || source.format == PixelFormat::Rgba || source.format
            == PixelFormat::Rgb565Le,
        source.bytes_per_pixel > 0,
    ensures
        capture_fault(source, len) is None <==> {
            &&& source.stride@.len() > 0
            &&& source.width * source.bytes_per_pixel <= source.stride@[0]
            &&& source.stride@[0] * source.height <= source.data@.len()
            &&& len == source.width * source.height * 4
        },
{
    law_valid_frames_fit(source.width as int, source.height as int);
}

// ---------------------------------------------------------------------------
// Recordings
// ---------------------------------------------------------------------------

/// A recording starts with its name and version, then width, height, frames in a
/// second and frames, four bytes each with the lowest first.
#[verifier::rlimit(60)]
pub proof fn law_recording_starts_with_its_shape(width: usize, height: usize, fps: u32, frames: usize)
    requires
        width <= u32::MAX,
        height <= u32::MAX,
        frames <= u32::MAX,
    ensures
        ({
            let header = header_bytes(width, height, fps, frames);
            &&& header.len() == 28
            &&& header.take(8) == seq![0x52u8, 0x41, 0x53, 0x43, 0x42, 0x47, 0x52, 0x31]
            &&& header[8] == 1 && header[9] == 0 && header[10] == 0 && header[11] == 0
            &&& header[12] + 256 * header[13] + 65_536 * header[14] + 16_777_216 * header[15] == width
            &&& header[16] + 256 * header[17] + 65_536 * header[18] + 16_777_216 * header[19] == height
            &&& header[20] + 256 * header[21] + 65_536 * header[22] + 16_777_216 * header[23] == fps
            &&& header[24] + 256 * header[25] + 65_536 * header[26] + 16_777_216 * header[27] == frames
        }),
{
    let header = header_bytes(width, height, fps, frames);
    lemma_le4(1);
    lemma_le4(width as nat);
    lemma_le4(height as nat);
    lemma_le4(fps as nat);
    lemma_le4(frames as nat);
    assert(header.take(8) =~= seq![0x52u8, 0x41, 0x53, 0x43, 0x42, 0x47, 0x52, 0x31]);
    assert(header[8] == le_bytes(1, 4)[0]);
    assert(header[9] == le_bytes(1, 4)[1]);
    assert(header[10] == le_bytes(1, 4)[2]);
    assert(header[11] == le_bytes(1, 4)[3]);
}

proof fn lemma_le4(value: nat)
    requires
        value <= u32::MAX,
    ensures
        le_bytes(value, 4).len() == 4,
        ({
            let bytes = le_bytes(value, 4);
            bytes[0] + 256 * bytes[1] + 65_536 * bytes[2] + 16_777_216 * bytes[3] == value
        }),
{
    reveal_with_fuel(le_bytes, 6);
}

/// A record is eight bytes of time, the lowest first, and then the pixels.
pub proof fn law_record_is_time_and_pixels(millis: u64, bgra: Seq<u8>)
    ensures
        record_bytes(millis, bgra).len() == 8 + bgra.len(),
        record_bytes(millis, bgra).skip(8) == bgra,
        le_value(record_bytes(millis, bgra).take(8)) == millis,
{
    law_record_replays(millis, bgra);
    lemma_le_len(millis as nat, 8);
    assert(record_bytes(millis, bgra).skip(8) =~= bgra);
}

/// A file is a recording exactly if it starts with the name and version 1, its
/// sizes are those of a frame, it has frames and a rate, and it is as long as its
/// header and that many records of a time and a frame.
pub proof fn law_recording_is_accepted(header: Seq<u8>, file_len: u64)
    ensures
        header_fault(header, file_len) is None <==> {
            let width = header_field(header, 12);
            let height = header_field(header, 16);
            let fps = header_field(header, 20);
            let frames = header_field(header, 24);
            &&& header.len() >= 28
            &&& header[0] == 0x52 && header[1] == 0x41 && header[2] == 0x53 && header[3] == 0x43
            &&& header[4] == 0x42 && header[5] == 0x47 && header[6] == 0x52 && header[7] == 0x31
            &&& header_field(header, 8) == 1
            &&& 1 <= width <= 16_384 && 1 <= height <= 16_384
            &&& fps > 0 && frames > 0
            &&& file_len == 28 + (8 + width * height * 4) * frames
        },
{
    let magic = seq![0x52u8, 0x41, 0x53, 0x43, 0x42, 0x47, 0x52, 0x31];
    if header.len() >= 28 {
        if header[0] == 0x52 && header[1] == 0x41 && header[2] == 0x53 && header[3] == 0x43 && header[4]
            == 0x42 && header[5] == 0x47 && header[6] == 0x52 && header[7] == 0x31 {
            assert(header.take(8) =~= magic);
        } else if header.take(8) == magic {
            assert(forall|i: int| 0 <= i < 8 ==> header.take(8)[i] == header[i]);
            assert(magic[0] == header[0] && magic[1] == header[1] && magic[2] == header[2] && magic[3]
                == header[3]);
            assert(magic[4] == header[4] && magic[5] == header[5] && magic[6] == header[6] && magic[7]
                == header[7]);
        }
    }
}

/// The numbers of a header are four bytes each, the lowest first.
pub proof fn law_header_numbers(header: Seq<u8>, at: int)
    requires
        0 <= at,
        at + 4 <= header.len(),
    ensures
        header_field(header, at) == header[at] + 256 * header[at + 1] + 65_536 * header[at + 2] + 16_777_216
            * header[at + 3],
{
    reveal_with_fuel(le_value, 5);
    let part = header.subrange(at, at + 4);
    assert(part[0] == header[at]);
    assert(part.skip(1)[0] == header[at + 1]);
    assert(part.skip(1).skip(1)[0] == header[at + 2]);
    assert(part.skip(1).skip(1).skip(1)[0] == header[at + 3]);
    assert(part.skip(1).skip(1).skip(1).skip(1).len() == 0);
}

/// A frame can be read exactly if the corpus has it, the buffer is as large as a
/// frame and, of a recording, the record holds its time and all its pixels.
pub proof fn law_frame_can_be_read(meta: CorpusMetadata, index: usize, record_len: nat, len: nat)
    ensures
        request_fault(meta, index, len) is None <==> index < meta.frames && len == meta.width * meta.height
            * 4,
        recorded_fault(meta, index, record_len, len) is None <==> index < meta.frames && len == meta.width
            * meta.height * 4 && record_len >= 8 + len,
{
}

/// A frame takes four bytes for each pixel and at most a gibibyte.
pub proof fn law_frame_takes_its_bytes(width: usize, height: usize)
    requires
        width * height * 4 <= usize::MAX,
    ensures
        frame_bytes(width as int, height as int) is Ok <==> width * height * 4 <= 1_073_741_824,
        frame_bytes(width as int, height as int) matches Ok(bytes) ==> bytes == width * height * 4,
        width * height * 4 > 1_073_741_824 ==> frame_bytes(width as int, height as int) == Err::<int, CorpusError>(
            CorpusError::FrameTooLarge,
        ),
{
}

} // verus!
