//! What the totals and percentiles of a benchmark run are.
use vstd::prelude::*;
use vstd::relations::{sorted_by, total_ordering};

use crate::screen::stats::{
    count_above, decoded_count, is_sample, nominal_tail, ordered, percentile_of, percentile_place,
    sum_of, summary_of, yuv420_sizes, AnalysisError, EncodeSummary,
};

verus! {

/// A percentile is the sample of the nearest rank. The exact rank of percentile
/// `p` among `n` ordered samples, counted from zero, is `(n - 1) * p / 100`;
/// the sample taken is never more than half a place away from it, and of two
/// places equally near it is the later one.
pub proof fn law_percentile_is_the_nearest_rank(sorted: Seq<u64>, percentile: int, place: int)
    requires
        0 <= place < sorted.len(),
        -50 < 100 * place - (sorted.len() - 1) * percentile <= 50,
    ensures
        percentile_of(sorted, percentile) == sorted[place],
        percentile_place(sorted.len() as int, percentile) == place,
{
}

/// Every percentile up to 100 has a place among the samples, and that place is
/// within half a rank of the exact one.
pub proof fn law_percentile_place_is_near(len: int, percentile: int)
    requires
        len > 0,
        0 <= percentile <= 100,
    ensures
        0 <= percentile_place(len, percentile) < len,
        2 * (100 * percentile_place(len, percentile) - (len - 1) * percentile) <= 100,
        2 * ((len - 1) * percentile - 100 * percentile_place(len, percentile)) <= 100,
{
    assert(0 <= (len - 1) * percentile <= (len - 1) * 100) by (nonlinear_arith)
        requires
            0 < len,
            0 <= percentile <= 100,
    ;
}

/// A percentile of ordered samples is a sample: at least `p` percent of the
/// others, to half a sample, are not above it, and at least the rest are not
/// below it.
pub proof fn law_percentile_parts_the_samples(sorted: Seq<u64>, percentile: int)
    requires
        sorted_by(sorted, |a: u64, b: u64| a <= b),
        sorted.len() > 0,
        0 <= percentile <= 100,
    ensures
        sorted.contains(percentile_of(sorted, percentile)),
        forall|i: int|
            0 <= i < sorted.len() && 100 * i <= (sorted.len() - 1) * percentile - 50
                ==> #[trigger] sorted[i] <= percentile_of(sorted, percentile),
        forall|i: int|
            0 <= i < sorted.len() && 100 * i >= (sorted.len() - 1) * percentile + 50
                ==> #[trigger] sorted[i] >= percentile_of(sorted, percentile),
{
    law_percentile_place_is_near(sorted.len() as int, percentile);
    let place = percentile_place(sorted.len() as int, percentile);
    assert(sorted[place] == percentile_of(sorted, percentile));
    let leq = |a: u64, b: u64| a <= b;
    assert forall|i: int|
        0 <= i < sorted.len() && 100 * i <= (sorted.len() - 1) * percentile - 50 implies #[trigger] sorted[i]
        <= percentile_of(sorted, percentile) by {
        assert(i <= place);
        if i < place {
            assert(leq(sorted[i], sorted[place]));
        }
    }
    assert forall|i: int|
        0 <= i < sorted.len() && 100 * i >= (sorted.len() - 1) * percentile + 50 implies #[trigger] sorted[i]
        >= percentile_of(sorted, percentile) by {
        assert(i >= place);
        if i > place {
            assert(leq(sorted[place], sorted[i]));
        }
    }
}

/// Equal samples have equal percentiles, whatever their number.
pub proof fn law_percentile_of_equal_samples(sorted: Seq<u64>, percentile: int, sample: u64)
    requires
        sorted.len() > 0,
        forall|i: int| 0 <= i < sorted.len() ==> sorted[i] == sample,
        0 <= percentile <= 100,
    ensures
        percentile_of(sorted, percentile) == sample,
{
    law_percentile_place_is_near(sorted.len() as int, percentile);
}

/// Ordering keeps the samples: whatever list holds the same samples in ascending
/// order is the ordered one.
pub proof fn law_ordered_is_the_sorted_list(samples: Seq<u64>, listed: Seq<u64>)
    requires
        forall|i: int, j: int| 0 <= i < j < listed.len() ==> listed[i] <= listed[j],
        listed.to_multiset() == samples.to_multiset(),
    ensures
        ordered(samples) == listed,
{
    let leq = |a: u64, b: u64| a <= b;
    assert(total_ordering(leq));
    samples.lemma_sort_by_ensures(leq);
    assert(sorted_by(listed, leq));
    vstd::seq_lib::lemma_sorted_unique(ordered(samples), listed, leq);
}

/// A sum is that of its parts, in any split, and of one sample it is the sample.
pub proof fn law_sum_of_parts(first: Seq<u64>, second: Seq<u64>)
    ensures
        sum_of(first + second) == sum_of(first) + sum_of(second),
        second.len() == 0 ==> sum_of(second) == 0,
        second.len() == 1 ==> sum_of(second) == second[0],
    decreases second.len(),
{
    reveal_with_fuel(sum_of, 2);
    if second.len() == 0 {
        assert(first + second =~= first);
    } else {
        law_sum_of_parts(first, second.drop_last());
        assert((first + second).drop_last() =~= first + second.drop_last());
        assert((first + second).last() == second.last());
    }
}

/// The samples above a limit are those that a filter keeps.
pub proof fn law_count_above(samples: Seq<u64>, limit: u64)
    ensures
        count_above(samples, limit) == samples.filter(|sample: u64| sample > limit).len(),
    decreases samples.len(),
{
    reveal(Seq::filter);
    if samples.len() > 0 {
        law_count_above(samples.drop_last(), limit);
    }
}

/// A summary holds the number and the sum of the encode times, how many of them
/// took longer than a frame at sixty and at thirty frames in a second, and of
/// times and packet sizes the samples of the nearest rank at 50, 95 and 99
/// percent, with the largest packet. `times_up` and `sizes_up` are the samples
/// in ascending order.
pub proof fn law_summary(
    times: Seq<u64>,
    sizes: Seq<u64>,
    times_up: Seq<u64>,
    sizes_up: Seq<u64>,
    summary: EncodeSummary,
)
    requires
        summary_of(times, sizes, summary),
        forall|i: int, j: int| 0 <= i < j < times_up.len() ==> times_up[i] <= times_up[j],
        times_up.to_multiset() == times.to_multiset(),
        forall|i: int, j: int| 0 <= i < j < sizes_up.len() ==> sizes_up[i] <= sizes_up[j],
        sizes_up.to_multiset() == sizes.to_multiset(),
    ensures
        summary.samples == times.len(),
        summary.total_ns == sum_of(times),
        summary.over_16_67_ms == times.filter(|time: u64| time > 16_670_000).len(),
        summary.over_33_33_ms == times.filter(|time: u64| time > 33_330_000).len(),
        forall|k: int|
            0 <= k < times_up.len() && -50 < 100 * k - (times_up.len() - 1) * 50 <= 50
                ==> #[trigger] times_up[k] == summary.p50_ns,
        forall|k: int|
            0 <= k < times_up.len() && -50 < 100 * k - (times_up.len() - 1) * 95 <= 50
                ==> #[trigger] times_up[k] == summary.p95_ns,
        forall|k: int|
            0 <= k < times_up.len() && -50 < 100 * k - (times_up.len() - 1) * 99 <= 50
                ==> #[trigger] times_up[k] == summary.p99_ns,
        forall|k: int|
            0 <= k < sizes_up.len() && -50 < 100 * k - (sizes_up.len() - 1) * 50 <= 50
                ==> #[trigger] sizes_up[k] == summary.packet_p50_bytes,
        forall|k: int|
            0 <= k < sizes_up.len() && -50 < 100 * k - (sizes_up.len() - 1) * 95 <= 50
                ==> #[trigger] sizes_up[k] == summary.packet_p95_bytes,
        forall|k: int|
            0 <= k < sizes_up.len() && -50 < 100 * k - (sizes_up.len() - 1) * 99 <= 50
                ==> #[trigger] sizes_up[k] == summary.packet_p99_bytes,
        forall|k: int|
            0 <= k < sizes_up.len() ==> #[trigger] sizes_up[k] <= summary.largest_packet_bytes,
        sizes_up.len() > 0 ==> sizes.contains(summary.largest_packet_bytes),
        times.len() == 0 ==> summary.p50_ns == 0 && summary.p95_ns == 0 && summary.p99_ns == 0,
        sizes.len() == 0 ==> summary.packet_p50_bytes == 0 && summary.packet_p95_bytes == 0
            && summary.packet_p99_bytes == 0 && summary.largest_packet_bytes == 0,
{
    broadcast use vstd::seq_lib::group_to_multiset_ensures;

    law_ordered_is_the_sorted_list(times, times_up);
    law_ordered_is_the_sorted_list(sizes, sizes_up);
    law_count_above(times, 16_670_000);
    law_count_above(times, 33_330_000);
    assert(times_up.len() == times.to_multiset().len() == times.len());
    assert(sizes_up.len() == sizes.to_multiset().len() == sizes.len());
    if sizes_up.len() > 0 {
        let last = sizes_up.len() - 1;
        assert(percentile_place(sizes_up.len() as int, 100) == last);
        assert(summary.largest_packet_bytes == sizes_up[last]);
        assert(sizes_up.to_multiset().contains(sizes_up[last]));
        assert(sizes.to_multiset().contains(sizes_up[last]));
    }
}

/// The last frame of a corpus is shown as long as one frame lasts: at `fps`
/// frames in a second that many of them fill a second and one more would not,
/// to the millisecond. Without a rate it is a second.
pub proof fn law_last_frame_fills_its_share(fps: u32)
    ensures
        fps > 0 ==> nominal_tail(fps) * fps <= 1_000 < (nominal_tail(fps) + 1) * fps,
        fps == 0 ==> nominal_tail(fps) == 1_000,
        0 <= nominal_tail(fps) <= 1_000,
{
    if fps > 0 {
        let n = fps as int;
        let q = 1_000int / n;
        assert(q * n <= 1_000 < (q + 1) * n && 0 <= q <= 1_000) by (nonlinear_arith)
            requires
                n > 0,
                q == 1_000int / n,
        ;
    }
}

/// A tight planar frame has one luma sample for each pixel, and two chroma
/// samples for each square of two by two pixels, a cut square too.
pub proof fn law_planar_frame_has_its_samples(width: usize, height: usize)
    requires
        width * height + (width + 1) * (height + 1) <= usize::MAX,
    ensures
        yuv420_sizes(width, height) is Ok,
        ({
            let layout = yuv420_sizes(width, height)->Ok_0;
            let across = layout.chroma_width;
            let down = (height + 1) / 2;
            &&& layout.luma_bytes == width * height
            &&& width <= 2 * across <= width + 1
            &&& layout.chroma_bytes == across * down
            &&& layout.frame_bytes == layout.luma_bytes + 2 * layout.chroma_bytes
        }),
{
    let w = width as int;
    let h = height as int;
    let cw = (w + 1) / 2;
    let ch = (h + 1) / 2;
    assert(0 <= w * h) by (nonlinear_arith)
        requires
            0 <= w,
            0 <= h,
    ;
    assert(0 <= cw * ch && 2 * (cw * ch) <= (w + 1) * (h + 1)) by (nonlinear_arith)
        requires
            0 <= w,
            0 <= h,
            cw == (w + 1) / 2,
            ch == (h + 1) / 2,
    ;
}

/// A decoded file is accepted exactly where it is as long as the expected number
/// of frames, and that number is not zero.
pub proof fn law_decoded_file_is_whole_frames(len: usize, frame_bytes: usize, expected: usize)
    ensures
        decoded_count(len, frame_bytes, expected) == Ok::<usize, AnalysisError>(expected) <==> len > 0
            && len == expected * frame_bytes,
        decoded_count(len, frame_bytes, expected) is Ok ==> decoded_count(
            len,
            frame_bytes,
            expected,
        )->Ok_0 == expected,
        forall|found: usize|
            len > 0 && found != expected && len == #[trigger] (found * frame_bytes) ==> decoded_count(
                len,
                frame_bytes,
                expected,
            ) == Err::<usize, AnalysisError>(AnalysisError::FrameCount { expected, found }),
{
    let l = len as int;
    let f = frame_bytes as int;
    let e = expected as int;
    if f > 0 {
        assert(l == f * (l / f) + l % f) by (nonlinear_arith)
            requires
                f > 0,
        ;
        assert(f * (l / f) == (l / f) * f) by (nonlinear_arith);
    }
    assert forall|found: usize| len > 0 && len == #[trigger] (found * frame_bytes) implies len
        % frame_bytes == 0 && len / frame_bytes == found && frame_bytes > 0 by {
        let n = found as int;
        assert(f > 0) by (nonlinear_arith)
            requires
                l == n * f,
                l > 0,
                n >= 0,
                f >= 0,
        ;
        vstd::arithmetic::div_mod::lemma_fundamental_div_mod_converse(l, f, n, 0);
    }
    if len > 0 && len == expected * frame_bytes {
        assert(len == (expected * frame_bytes));
    }
}

/// In a run with samples exactly one frame is saved: that in the middle of the
/// first pass.
pub proof fn law_one_sample_is_saved(repeat: usize, frame: usize, frames: usize)
    requires
        frames > 0,
    ensures
        is_sample(true, repeat, frame, frames) <==> repeat == 0 && 2 * frame <= frames < 2 * frame + 2,
        !is_sample(false, repeat, frame, frames),
        exists|middle: usize| middle < frames && #[trigger] is_sample(true, 0, middle, frames),
{
    let middle = (frames / 2) as usize;
    assert(middle < frames && is_sample(true, 0, middle, frames));
}

} // verus!
