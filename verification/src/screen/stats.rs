//! Totals and percentiles of a benchmark run, and the checks of a decoded file.
use vstd::prelude::*;
use vstd::relations::{sorted_by, total_ordering};
use vstd::string::*;

use crate::netprobe::clock::saturating_sum;
use crate::netprobe::wire::ceil_div;
use crate::screen::active_map::Variant;
use crate::screen::corpus::{saturated, DisplayInfo, PixelFormat};
use crate::screen::yuv::EncodeYuvFormat;
use crate::text::{bool_text, decimal, push_bool, push_decimal, push_signed, signed_decimal};

verus! {

// ---------------------------------------------------------------------------
// Percentiles
// ---------------------------------------------------------------------------

/// Samples in ascending order.
pub open spec fn ordered(samples: Seq<u64>) -> Seq<u64> {
    samples.sort_by(|a: u64, b: u64| a <= b)
}

/// The place of a percentile among `len` ordered samples.
pub open spec fn percentile_place(len: int, percentile: int) -> int {
    ((len - 1) * percentile + 50) / 100
}

/// A percentile of ordered samples, zero where there are none.
pub open spec fn percentile_of(sorted: Seq<u64>, percentile: int) -> u64 {
    if sorted.len() == 0 {
        0
    } else {
        sorted[percentile_place(sorted.len() as int, percentile)]
    }
}

/// Sorts samples by the standard library's `sort_unstable`, which orders them
/// ascending and neither adds nor loses any.
#[verifier::external_body]
fn sort_samples(samples: &mut Vec<u64>)
    ensures
        sorted_by(final(samples)@, |a: u64, b: u64| a <= b),
        final(samples)@.to_multiset() == old(samples)@.to_multiset(),
{
    samples.sort_unstable();
}

/// Sorts samples.
fn sort_ordered(samples: &mut Vec<u64>)
    ensures
        final(samples)@ == ordered(old(samples)@),
        final(samples)@.len() == old(samples)@.len(),
{
    let ghost before = samples@;
    sort_samples(samples);
    proof {
        let leq = |a: u64, b: u64| a <= b;
        assert(total_ordering(leq));
        before.lemma_sort_by_ensures(leq);
        vstd::seq_lib::lemma_sorted_unique(samples@, ordered(before), leq);
        broadcast use vstd::seq_lib::group_to_multiset_ensures;

        assert(samples@.to_multiset().len() == before.to_multiset().len());
    }
}

/// A percentile of ordered samples, zero where there are none.
pub fn percentile_value(sorted: &[u64], percentile: usize) -> (value: u64)
    requires
        sorted.len() > 0 ==> percentile_place(sorted.len() as int, percentile as int) < sorted.len(),
    ensures
        value == percentile_of(sorted@, percentile as int),
{
    if sorted.len() == 0 {
        return 0;
    }
    proof {
        assert((sorted.len() - 1) * percentile <= 0xffff_ffff_ffff_ffff * 0xffff_ffff_ffff_ffff)
            by (nonlinear_arith)
            requires
                0 <= sorted.len() - 1 <= 0xffff_ffff_ffff_ffff,
                0 <= percentile <= 0xffff_ffff_ffff_ffff,
        ;
        assert(0 <= (sorted.len() - 1) * percentile) by (nonlinear_arith)
            requires
                0 <= sorted.len() - 1,
                0 <= percentile,
        ;
    }
    let place: u128 = ((sorted.len() - 1) as u128 * percentile as u128 + 50) / 100;
    sorted[place as usize]
}

/// Percentiles up to 100 lie among the samples, they grow with the percentile,
/// and the last one is the largest sample.
pub proof fn law_percentiles(len: int, low: int, high: int)
    requires
        len > 0,
        0 <= low <= high <= 100,
    ensures
        0 <= percentile_place(len, low) <= percentile_place(len, high) < len,
        percentile_place(len, 100) == len - 1,
        percentile_place(len, 0) == 0,
{
    assert((len - 1) * low <= (len - 1) * high <= (len - 1) * 100) by (nonlinear_arith)
        requires
            0 < len,
            0 <= low <= high <= 100,
    ;
    assert(0 <= (len - 1) * low) by (nonlinear_arith)
        requires
            0 < len,
            0 <= low,
    ;
}

// ---------------------------------------------------------------------------
// Totals
// ---------------------------------------------------------------------------

/// The sum of samples.
pub open spec fn sum_of(samples: Seq<u64>) -> int
    decreases samples.len(),
{
    if samples.len() == 0 {
        0
    } else {
        sum_of(samples.drop_last()) + samples.last()
    }
}

/// How many samples are above a limit.
pub open spec fn count_above(samples: Seq<u64>, limit: u64) -> int
    decreases samples.len(),
{
    if samples.len() == 0 {
        0
    } else {
        count_above(samples.drop_last(), limit) + if samples.last() > limit { 1int } else { 0int }
    }
}

fn total(samples: &[u64]) -> (sum: u128)
    ensures
        sum == sum_of(samples@),
{
    let mut sum: u128 = 0;
    let mut i: usize = 0;
    assert(samples@.take(0) =~= seq![]);
    while i < samples.len()
        invariant
            i <= samples.len(),
            sum == sum_of(samples@.take(i as int)),
            sum <= i * 0xffff_ffff_ffff_ffff,
        decreases samples.len() - i,
    {
        assert(samples@.take(i + 1).drop_last() =~= samples@.take(i as int));
        sum = sum + samples[i] as u128;
        i += 1;
    }
    assert(samples@.take(i as int) =~= samples@);
    sum
}

fn above(samples: &[u64], limit: u64) -> (count: usize)
    ensures
        count == count_above(samples@, limit),
{
    let mut count: usize = 0;
    let mut i: usize = 0;
    assert(samples@.take(0) =~= seq![]);
    while i < samples.len()
        invariant
            i <= samples.len(),
            count == count_above(samples@.take(i as int), limit),
            count <= i,
        decreases samples.len() - i,
    {
        assert(samples@.take(i + 1).drop_last() =~= samples@.take(i as int));
        if samples[i] > limit {
            count = count + 1;
        }
        i += 1;
    }
    assert(samples@.take(i as int) =~= samples@);
    count
}

/// What a configuration has produced so far.
#[derive(Debug)]
pub struct EncodeTally {
    pub payload_bytes: u64,
    pub protocol_bytes: u64,
    pub keyframe_bytes: u64,
    pub largest_keyframe_bytes: u64,
    pub encoded_packets: usize,
    pub decoded_frames: usize,
    pub keyframes: usize,
    pub total_duration_ms: u64,
    pub total_active_blocks: u64,
    pub total_map_blocks: u64,
    pub encode_times_ns: Vec<u64>,
    pub packet_sizes: Vec<u64>,
}

/// What an [`EncodeTally`] stands for.
pub struct TallyModel {
    pub payload_bytes: u64,
    pub protocol_bytes: u64,
    pub keyframe_bytes: u64,
    pub largest_keyframe_bytes: u64,
    pub encoded_packets: usize,
    pub decoded_frames: usize,
    pub keyframes: usize,
    pub total_duration_ms: u64,
    pub total_active_blocks: u64,
    pub total_map_blocks: u64,
    pub encode_times_ns: Seq<u64>,
    pub packet_sizes: Seq<u64>,
}

impl View for EncodeTally {
    type V = TallyModel;

    open spec fn view(&self) -> TallyModel {
        TallyModel {
            payload_bytes: self.payload_bytes,
            protocol_bytes: self.protocol_bytes,
            keyframe_bytes: self.keyframe_bytes,
            largest_keyframe_bytes: self.largest_keyframe_bytes,
            encoded_packets: self.encoded_packets,
            decoded_frames: self.decoded_frames,
            keyframes: self.keyframes,
            total_duration_ms: self.total_duration_ms,
            total_active_blocks: self.total_active_blocks,
            total_map_blocks: self.total_map_blocks,
            encode_times_ns: self.encode_times_ns@,
            packet_sizes: self.packet_sizes@,
        }
    }
}

/// The timing of a configuration.
#[derive(Clone, Copy, Debug, PartialEq, Eq, Structural)]
pub struct EncodeSummary {
    pub samples: usize,
    pub total_ns: u128,
    pub p50_ns: u64,
    pub p95_ns: u64,
    pub p99_ns: u64,
    pub over_16_67_ms: usize,
    pub over_33_33_ms: usize,
    pub packet_p50_bytes: u64,
    pub packet_p95_bytes: u64,
    pub packet_p99_bytes: u64,
    pub largest_packet_bytes: u64,
}

/// The summary of encode times and packet sizes.
pub open spec fn summary_of(times: Seq<u64>, sizes: Seq<u64>, summary: EncodeSummary) -> bool {
    let sorted_times = ordered(times);
    let sorted_sizes = ordered(sizes);
    &&& summary.samples == times.len()
    &&& summary.total_ns == sum_of(times)
    &&& summary.p50_ns == percentile_of(sorted_times, 50)
    &&& summary.p95_ns == percentile_of(sorted_times, 95)
    &&& summary.p99_ns == percentile_of(sorted_times, 99)
    &&& summary.over_16_67_ms == count_above(times, 16_670_000)
    &&& summary.over_33_33_ms == count_above(times, 33_330_000)
    &&& summary.packet_p50_bytes == percentile_of(sorted_sizes, 50)
    &&& summary.packet_p95_bytes == percentile_of(sorted_sizes, 95)
    &&& summary.packet_p99_bytes == percentile_of(sorted_sizes, 99)
    &&& summary.largest_packet_bytes == percentile_of(sorted_sizes, 100)
}

/// The time that the last frame of a corpus is shown, in milliseconds.
pub open spec fn nominal_tail(fps: u32) -> int {
    1_000int / (if fps == 0 { 1int } else { fps as int })
}

impl EncodeTally {
    pub fn new() -> (tally: EncodeTally)
        ensures
            tally@ == (TallyModel {
                payload_bytes: 0,
                protocol_bytes: 0,
                keyframe_bytes: 0,
                largest_keyframe_bytes: 0,
                encoded_packets: 0,
                decoded_frames: 0,
                keyframes: 0,
                total_duration_ms: 0,
                total_active_blocks: 0,
                total_map_blocks: 0,
                encode_times_ns: seq![],
                packet_sizes: seq![],
            }),
    {
        let tally = EncodeTally {
            payload_bytes: 0,
            protocol_bytes: 0,
            keyframe_bytes: 0,
            largest_keyframe_bytes: 0,
            encoded_packets: 0,
            decoded_frames: 0,
            keyframes: 0,
            total_duration_ms: 0,
            total_active_blocks: 0,
            total_map_blocks: 0,
            encode_times_ns: Vec::new(),
            packet_sizes: Vec::new(),
        };
        assert(tally.encode_times_ns@ =~= seq![]);
        assert(tally.packet_sizes@ =~= seq![]);
        tally
    }

    /// Takes note of an active map.
    pub fn active_map(&mut self, active: usize, blocks: usize)
        requires
            old(self).total_active_blocks + active <= u64::MAX,
            old(self).total_map_blocks + blocks <= u64::MAX,
        ensures
            final(self)@ == (TallyModel {
                total_active_blocks: (old(self).total_active_blocks + active) as u64,
                total_map_blocks: (old(self).total_map_blocks + blocks) as u64,
                ..old(self)@
            }),
    {
        self.total_active_blocks = self.total_active_blocks + active as u64;
        self.total_map_blocks = self.total_map_blocks + blocks as u64;
    }

    /// Takes note of the time that a frame took to encode.
    pub fn encode_time(&mut self, nanos: u64)
        ensures
            final(self)@ == (TallyModel {
                encode_times_ns: old(self)@.encode_times_ns.push(nanos),
                ..old(self)@
            }),
    {
        self.encode_times_ns.push(nanos);
    }

    /// Takes note of a packet of the software encoder.
    pub fn software_packet(&mut self, bytes: u64, key: bool)
        requires
            old(self).payload_bytes + bytes <= u64::MAX,
            old(self).keyframe_bytes + bytes <= u64::MAX,
            old(self).encoded_packets < usize::MAX,
            old(self).keyframes < usize::MAX,
        ensures
            final(self)@ == (TallyModel {
                payload_bytes: (old(self).payload_bytes + bytes) as u64,
                encoded_packets: (old(self).encoded_packets + 1) as usize,
                keyframes: if key {
                    (old(self).keyframes + 1) as usize
                } else {
                    old(self).keyframes
                },
                keyframe_bytes: if key {
                    (old(self).keyframe_bytes + bytes) as u64
                } else {
                    old(self).keyframe_bytes
                },
                ..old(self)@
            }),
    {
        self.payload_bytes = self.payload_bytes + bytes;
        self.encoded_packets = self.encoded_packets + 1;
        if key {
            self.keyframes = self.keyframes + 1;
            self.keyframe_bytes = self.keyframe_bytes + bytes;
        }
    }

    /// Takes note of a packet of a hardware encoder.
    pub fn hardware_packet(&mut self, bytes: u64, key: bool)
        requires
            old(self).encoded_packets < usize::MAX,
            old(self).keyframes < usize::MAX,
        ensures
            final(self)@ == (TallyModel {
                payload_bytes: saturating_sum(old(self).payload_bytes as int, bytes as int),
                packet_sizes: old(self)@.packet_sizes.push(bytes),
                encoded_packets: (old(self).encoded_packets + 1) as usize,
                keyframes: if key {
                    (old(self).keyframes + 1) as usize
                } else {
                    old(self).keyframes
                },
                largest_keyframe_bytes: if key && bytes > old(self).largest_keyframe_bytes {
                    bytes
                } else {
                    old(self).largest_keyframe_bytes
                },
                ..old(self)@
            }),
    {
        self.payload_bytes = self.payload_bytes.saturating_add(bytes);
        self.packet_sizes.push(bytes);
        self.encoded_packets = self.encoded_packets + 1;
        if key {
            self.keyframes = self.keyframes + 1;
            if bytes > self.largest_keyframe_bytes {
                self.largest_keyframe_bytes = bytes;
            }
        }
    }

    /// Takes note of a decoded frame.
    pub fn decoded_frame(&mut self)
        requires
            old(self).decoded_frames < usize::MAX,
        ensures
            final(self)@ == (TallyModel {
                decoded_frames: (old(self).decoded_frames + 1) as usize,
                ..old(self)@
            }),
    {
        self.decoded_frames = self.decoded_frames + 1;
    }

    /// Takes note of the size of a serialized message.
    pub fn message(&mut self, bytes: u64)
        requires
            old(self).protocol_bytes + bytes <= u64::MAX,
        ensures
            final(self)@ == (TallyModel {
                protocol_bytes: (old(self).protocol_bytes + bytes) as u64,
                ..old(self)@
            }),
    {
        self.protocol_bytes = self.protocol_bytes + bytes;
    }

    /// Takes note of the size of a serialized message of a hardware run.
    pub fn hardware_message(&mut self, bytes: u64)
        ensures
            final(self)@ == (TallyModel {
                protocol_bytes: saturating_sum(old(self).protocol_bytes as int, bytes as int),
                ..old(self)@
            }),
    {
        self.protocol_bytes = self.protocol_bytes.saturating_add(bytes);
    }

    /// Takes note of the end of a pass over the corpus.
    pub fn pass_ended(&mut self, last_timestamp_ms: u64, fps: u32)
        ensures
            final(self)@ == (TallyModel {
                total_duration_ms: saturating_sum(
                    saturating_sum(old(self).total_duration_ms as int, last_timestamp_ms as int) as int,
                    nominal_tail(fps),
                ),
                ..old(self)@
            }),
    {
        let rate: u32 = if fps == 0 { 1 } else { fps };
        let tail: u64 = (1_000 / rate) as u64;
        self.total_duration_ms =
        self.total_duration_ms.saturating_add(last_timestamp_ms).saturating_add(tail);
    }

    /// The timing of the configuration, nothing where no frame could be decoded;
    /// `with_packets` asks for packet sizes too.
    pub fn summarize(&mut self, with_packets: bool) -> (summary: Option<EncodeSummary>)
        ensures
            summary is None <==> (old(self).decoded_frames == 0 || old(self)@.encode_times_ns.len() == 0
                || (with_packets && old(self)@.packet_sizes.len() == 0)),
            summary matches Some(summary) ==> summary_of(
                old(self)@.encode_times_ns,
                old(self)@.packet_sizes,
                summary,
            ),
            final(self)@ == if summary is Some {
                TallyModel {
                    encode_times_ns: ordered(old(self)@.encode_times_ns),
                    packet_sizes: ordered(old(self)@.packet_sizes),
                    ..old(self)@
                }
            } else {
                old(self)@
            },
    {
        if self.decoded_frames == 0 || self.encode_times_ns.len() == 0 || (with_packets
            && self.packet_sizes.len() == 0) {
            return None;
        }
        let total_ns: u128 = total(self.encode_times_ns.as_slice());
        let over_16_67_ms: usize = above(self.encode_times_ns.as_slice(), 16_670_000);
        let over_33_33_ms: usize = above(self.encode_times_ns.as_slice(), 33_330_000);
        sort_ordered(&mut self.encode_times_ns);
        sort_ordered(&mut self.packet_sizes);
        let times = self.encode_times_ns.as_slice();
        let sizes = self.packet_sizes.as_slice();
        proof {
            law_percentiles(times.len() as int, 50, 95);
            law_percentiles(times.len() as int, 95, 99);
            if sizes.len() > 0 {
                law_percentiles(sizes.len() as int, 50, 95);
                law_percentiles(sizes.len() as int, 95, 99);
                law_percentiles(sizes.len() as int, 99, 100);
            }
        }
        let summary = EncodeSummary {
            samples: times.len(),
            total_ns,
            p50_ns: percentile_value(times, 50),
            p95_ns: percentile_value(times, 95),
            p99_ns: percentile_value(times, 99),
            over_16_67_ms,
            over_33_33_ms,
            packet_p50_bytes: percentile_value(sizes, 50),
            packet_p95_bytes: percentile_value(sizes, 95),
            packet_p99_bytes: percentile_value(sizes, 99),
            largest_packet_bytes: percentile_value(sizes, 100),
        };
        Some(summary)
    }
}

/// The largest packet is at least as large as every packet.
pub proof fn law_largest_packet(sizes: Seq<u64>, at: int)
    requires
        0 <= at < sizes.len(),
    ensures
        sizes[at] <= percentile_of(ordered(sizes), 100),
{
    broadcast use vstd::seq_lib::group_to_multiset_ensures;

    let leq = |a: u64, b: u64| a <= b;
    assert(total_ordering(leq));
    sizes.lemma_sort_by_ensures(leq);
    let sorted = ordered(sizes);
    assert(sorted.to_multiset().len() == sizes.to_multiset().len());
    assert(sizes.to_multiset().count(sizes[at]) > 0);
    assert(sorted.to_multiset().count(sizes[at]) > 0);
    assert(sorted.contains(sizes[at]));
    let place = sorted.index_of(sizes[at]);
    law_percentiles(sorted.len() as int, 100, 100);
    if place < sorted.len() - 1 {
        assert(leq(sorted[place], sorted[sorted.len() - 1]));
    }
}

// ---------------------------------------------------------------------------
// Samples and displays
// ---------------------------------------------------------------------------

/// Whether the frame in the middle of the first pass is saved.
pub open spec fn is_sample(save: bool, repeat: usize, frame: usize, frames: usize) -> bool {
    save && repeat == 0 && frame == frames / 2
}

/// Whether the decoded frame is saved.
pub fn saves_decoded_sample(save: bool, repeat: usize, frame: usize, frames: usize) -> (yes: bool)
    ensures
        yes == is_sample(save, repeat, frame, frames),
{
    save && repeat == 0 && frame == frames / 2
}

/// Whether the source frame is saved: once per colour mode, by the baseline.
pub fn saves_source_sample(save: bool, repeat: usize, frame: usize, frames: usize, variant: Variant) -> (yes: bool)
    ensures
        yes == (is_sample(save, repeat, frame, frames) && variant == Variant::Baseline),
{
    saves_decoded_sample(save, repeat, frame, frames) && variant == Variant::Baseline
}

/// Whether `place` is the first display that satisfies a wish.
pub open spec fn first_display(
    displays: Seq<DisplayInfo>,
    wish: spec_fn(DisplayInfo) -> bool,
    place: int,
) -> bool {
    &&& 0 <= place < displays.len()
    &&& wish(displays[place])
    &&& forall|i: int| 0 <= i < place ==> !wish(#[trigger] displays[i])
}

/// Whether no display satisfies a wish.
pub open spec fn no_display(displays: Seq<DisplayInfo>, wish: spec_fn(DisplayInfo) -> bool) -> bool {
    forall|i: int| 0 <= i < displays.len() ==> !wish(#[trigger] displays[i])
}

/// Whether `place` is the display announced: the one with the number asked for,
/// else the first primary one, else the first.
pub open spec fn is_announced(displays: Seq<DisplayInfo>, requested: Option<usize>, place: int) -> bool {
    let asked = |info: DisplayInfo| requested == Some(info.index);
    let primary = |info: DisplayInfo| info.primary;
    if !no_display(displays, asked) {
        first_display(displays, asked, place)
    } else if !no_display(displays, primary) {
        first_display(displays, primary, place)
    } else {
        place == 0 && displays.len() > 0
    }
}

/// The display that a recording is announced for, nothing without displays.
pub fn announced_display(displays: &[DisplayInfo], requested: Option<usize>) -> (place: Option<usize>)
    ensures
        place is None <==> displays@.len() == 0,
        place matches Some(place) ==> is_announced(displays@, requested, place as int),
{
    let ghost asked = |info: DisplayInfo| requested == Some(info.index);
    let ghost primary = |info: DisplayInfo| info.primary;
    if let Some(number) = requested {
        let mut i: usize = 0;
        while i < displays.len()
            invariant
                i <= displays.len(),
                requested == Some(number),
                asked == (|info: DisplayInfo| requested == Some(info.index)),
                forall|k: int| 0 <= k < i ==> !asked(#[trigger] displays@[k]),
            decreases displays.len() - i,
        {
            if displays[i].index == number {
                assert(asked(displays@[i as int]));
                return Some(i);
            }
            i += 1;
        }
    }
    assert(no_display(displays@, asked));
    let mut i: usize = 0;
    while i < displays.len()
        invariant
            i <= displays.len(),
            asked == (|info: DisplayInfo| requested == Some(info.index)),
            primary == (|info: DisplayInfo| info.primary),
            no_display(displays@, asked),
            forall|k: int| 0 <= k < i ==> !primary(#[trigger] displays@[k]),
        decreases displays.len() - i,
    {
        if displays[i].primary {
            assert(primary(displays@[i as int]));
            return Some(i);
        }
        i += 1;
    }
    if displays.len() == 0 {
        None
    } else {
        Some(0)
    }
}

/// The size of a display as text.
pub open spec fn size_text(info: DisplayInfo) -> Seq<char> {
    decimal(info.width as nat) + "x"@ + decimal(info.height as nat)
}

/// The corner of a display as text.
pub open spec fn origin_text(info: DisplayInfo) -> Seq<char> {
    signed_decimal(info.origin.0 as int) + ","@ + signed_decimal(info.origin.1 as int)
}

/// The line that lists a display.
pub fn display_listing(info: &DisplayInfo) -> (line: String)
    ensures
        line@ == decimal(info.index as nat) + ": "@ + info.name@ + " | "@ + size_text(*info)
            + " | origin "@ + origin_text(*info) + " | primary="@ + bool_text(info.primary),
{
    let mut line = String::new();
    push_decimal(&mut line, info.index as u128);
    line.append(": ");
    line.append(info.name.as_str());
    line.append(" | ");
    push_decimal(&mut line, info.width as u128);
    line.append("x");
    push_decimal(&mut line, info.height as u128);
    line.append(" | origin ");
    push_signed(&mut line, info.origin.0 as i64);
    line.append(",");
    push_signed(&mut line, info.origin.1 as i64);
    line.append(" | primary=");
    push_bool(&mut line, info.primary);
    assert(line@ =~= decimal(info.index as nat) + ": "@ + info.name@ + " | "@ + size_text(*info)
        + " | origin "@ + origin_text(*info) + " | primary="@ + bool_text(info.primary));
    line
}

/// The line that announces a recording.
pub fn recording_line(frames: usize, info: &DisplayInfo, output: &str) -> (line: String)
    ensures
        line@ == "Recording "@ + decimal(frames as nat) + " changed frames from display "@ + decimal(
            info.index as nat,
        ) + ": "@ + info.name@ + " ("@ + size_text(*info) + " at "@ + origin_text(*info)
            + ", primary="@ + bool_text(info.primary) + ") to "@ + output@,
{
    let mut line = "Recording ".to_owned();
    push_decimal(&mut line, frames as u128);
    line.append(" changed frames from display ");
    push_decimal(&mut line, info.index as u128);
    line.append(": ");
    line.append(info.name.as_str());
    line.append(" (");
    push_decimal(&mut line, info.width as u128);
    line.append("x");
    push_decimal(&mut line, info.height as u128);
    line.append(" at ");
    push_signed(&mut line, info.origin.0 as i64);
    line.append(",");
    push_signed(&mut line, info.origin.1 as i64);
    line.append(", primary=");
    push_bool(&mut line, info.primary);
    line.append(") to ");
    line.append(output);
    assert(line@ =~= "Recording "@ + decimal(frames as nat) + " changed frames from display "@
        + decimal(info.index as nat) + ": "@ + info.name@ + " ("@ + size_text(*info) + " at "@
        + origin_text(*info) + ", primary="@ + bool_text(info.primary) + ") to "@ + output@);
    line
}

// ---------------------------------------------------------------------------
// Decoded files
// ---------------------------------------------------------------------------

/// Why a decoded file cannot be compared with a corpus.
#[derive(Clone, Copy, Debug, PartialEq, Eq, Structural)]
pub enum AnalysisError {
    LumaOverflow,
    ChromaOverflow,
    FrameOverflow,
    PartialFrame,
    FrameCount { expected: usize, found: usize },
    BgraOverflow,
}

impl AnalysisError {
    /// The error in words.
    pub open spec fn words(self) -> Seq<char> {
        match self {
            AnalysisError::LumaOverflow => "luma size overflow"@,
            AnalysisError::ChromaOverflow => "chroma size overflow"@,
            AnalysisError::FrameOverflow => "YUV frame size overflow"@,
            AnalysisError::PartialFrame => "decoded YUV420P file has a partial frame"@,
            AnalysisError::FrameCount { expected, found } =>
                "decoded frame count mismatch: expected "@ + decimal(expected as nat) + ", found "@
                    + decimal(found as nat),
            AnalysisError::BgraOverflow => "BGRA size overflow"@,
        }
    }

    /// The error in words.
    pub fn message(&self) -> (text: String)
        ensures
            text@ == self.words(),
    {
        match self {
            AnalysisError::LumaOverflow => "luma size overflow".to_owned(),
            AnalysisError::ChromaOverflow => "chroma size overflow".to_owned(),
            AnalysisError::FrameOverflow => "YUV frame size overflow".to_owned(),
            AnalysisError::PartialFrame => "decoded YUV420P file has a partial frame".to_owned(),
            AnalysisError::FrameCount { expected, found } => {
                let mut text = "decoded frame count mismatch: expected ".to_owned();
                push_decimal(&mut text, *expected as u128);
                text.append(", found ");
                push_decimal(&mut text, *found as u128);
                text
            },
            AnalysisError::BgraOverflow => "BGRA size overflow".to_owned(),
        }
    }
}

/// The sizes of a tight planar frame.
#[derive(Clone, Copy, Debug, PartialEq, Eq, Structural)]
pub struct Yuv420Layout {
    pub luma_bytes: usize,
    pub chroma_width: usize,
    pub chroma_bytes: usize,
    pub frame_bytes: usize,
}

/// The sizes of a tight planar frame, or which of them does not fit.
pub open spec fn yuv420_sizes(width: usize, height: usize) -> Result<Yuv420Layout, AnalysisError> {
    let luma = width * height;
    let chroma_width = ceil_div(width as int, 2);
    let chroma = chroma_width * ceil_div(height as int, 2);
    if luma > usize::MAX {
        Err(AnalysisError::LumaOverflow)
    } else if chroma > usize::MAX {
        Err(AnalysisError::ChromaOverflow)
    } else if luma + saturated(chroma, 2) > usize::MAX {
        Err(AnalysisError::FrameOverflow)
    } else {
        Ok(
            Yuv420Layout {
                luma_bytes: luma as usize,
                chroma_width: chroma_width as usize,
                chroma_bytes: chroma as usize,
                frame_bytes: (luma + saturated(chroma, 2)) as usize,
            },
        )
    }
}

/// The sizes of a tight planar frame.
pub fn yuv420_layout(width: usize, height: usize) -> (res: Result<Yuv420Layout, AnalysisError>)
    ensures
        res == yuv420_sizes(width, height),
{
    assert(0 <= width * height) by (nonlinear_arith)
        requires
            0 <= width,
            0 <= height,
    ;
    let luma_bytes: usize = match width.checked_mul(height) {
        Some(bytes) => bytes,
        None => {
            return Err(AnalysisError::LumaOverflow);
        },
    };
    let chroma_width: usize = width / 2 + width % 2;
    let chroma_height: usize = height / 2 + height % 2;
    assert(0 <= chroma_width * chroma_height) by (nonlinear_arith)
        requires
            0 <= chroma_width,
            0 <= chroma_height,
    ;
    let chroma_bytes: usize = match chroma_width.checked_mul(chroma_height) {
        Some(bytes) => bytes,
        None => {
            return Err(AnalysisError::ChromaOverflow);
        },
    };
    let both: usize = match chroma_bytes.checked_mul(2) {
        Some(bytes) => bytes,
        None => usize::MAX,
    };
    match luma_bytes.checked_add(both) {
        Some(frame_bytes) => Ok(Yuv420Layout { luma_bytes, chroma_width, chroma_bytes, frame_bytes }),
        None => Err(AnalysisError::FrameOverflow),
    }
}

/// The number of frames of a decoded file, or why it does not fit the corpus.
pub open spec fn decoded_count(len: usize, frame_bytes: usize, expected: usize) -> Result<
    usize,
    AnalysisError,
> {
    if len == 0 || frame_bytes == 0 || len % frame_bytes != 0 {
        Err(AnalysisError::PartialFrame)
    } else if len / frame_bytes != expected {
        Err(AnalysisError::FrameCount { expected, found: len / frame_bytes })
    } else {
        Ok(expected)
    }
}

/// Checks that a decoded file has as many frames as the corpus.
pub fn decoded_frame_count(len: usize, frame_bytes: usize, expected: usize) -> (res: Result<
    usize,
    AnalysisError,
>)
    ensures
        res == decoded_count(len, frame_bytes, expected),
{
    if len == 0 || frame_bytes == 0 || len % frame_bytes != 0 {
        return Err(AnalysisError::PartialFrame);
    }
    let found: usize = len / frame_bytes;
    if found != expected {
        return Err(AnalysisError::FrameCount { expected, found });
    }
    Ok(found)
}

/// The bytes of a frame of four-byte pixels.
pub fn bgra_bytes(width: usize, height: usize) -> (res: Result<usize, AnalysisError>)
    ensures
        match res {
            Ok(bytes) => bytes == width * height * 4,
            Err(err) => width * height * 4 > usize::MAX && err == AnalysisError::BgraOverflow,
        },
{
    assert(0 <= width * height) by (nonlinear_arith)
        requires
            0 <= width,
            0 <= height,
    ;
    match width.checked_mul(height) {
        Some(pixels) => match pixels.checked_mul(4) {
            Some(bytes) => Ok(bytes),
            None => Err(AnalysisError::BgraOverflow),
        },
        None => Err(AnalysisError::BgraOverflow),
    }
}

/// The planes of a tight planar frame.
pub fn yuv420_format(width: usize, height: usize, layout: &Yuv420Layout) -> (format: EncodeYuvFormat)
    requires
        yuv420_sizes(width, height) == Ok::<Yuv420Layout, AnalysisError>(*layout),
    ensures
        format.pixfmt == PixelFormat::I420,
        format.w == width,
        format.h == height,
        format.stride@ == seq![width, layout.chroma_width, layout.chroma_width],
        format.u == layout.luma_bytes,
        format.v == layout.luma_bytes + layout.chroma_bytes,
{
    let mut stride: Vec<usize> = Vec::new();
    stride.push(width);
    stride.push(layout.chroma_width);
    stride.push(layout.chroma_width);
    assert(stride@ =~= seq![width, layout.chroma_width, layout.chroma_width]);
    assert(0 <= layout.chroma_width * ceil_div(height as int, 2)) by (nonlinear_arith)
        requires
            0 <= layout.chroma_width,
            0 <= ceil_div(height as int, 2),
    ;
    EncodeYuvFormat {
        pixfmt: PixelFormat::I420,
        w: width,
        h: height,
        stride,
        u: layout.luma_bytes,
        v: layout.luma_bytes + layout.chroma_bytes,
    }
}

} // verus!
