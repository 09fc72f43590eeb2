//! Which chunks the UDP receiver asks for, and when.
use vstd::prelude::*;

use crate::bytes::{be_bytes, lemma_be4, lemma_be_value4};
use crate::netprobe::clock::{elapsed, has_elapsed, saturating_product, saturating_sum};
use crate::netprobe::config::{udp_server_fault, UdpServerConfig};
use crate::netprobe::frames::{
    lemma_count_bounds, lemma_sorted_lists, lemma_unset_indexes, sorted, unset_indexes,
};
use crate::netprobe::udp_laws::law_requests_read_back;
use crate::netprobe::udp_server::{
    due_nacks, index_bytes, lemma_filter_of_listing, nack_due, nack_recorded, requested_chunks,
    requested_indexes, status_header, status_message, status_packet_bytes, NackModel, UdpModel,
};
use crate::netprobe::wire::{decoded_udp_packet, status_bytes};
use crate::netprobe::wire_laws::{law_packet_layout, law_report_layout, long, word};

verus! {

/// Time is counted in nanoseconds, a millisecond is a million of them, and a
/// clock that reads earlier than the start counts as no time at all.
pub proof fn law_elapsed_time(since: u64, now: u64, millis: u64)
    ensures
        now >= since ==> elapsed(since, now) == now - since,
        now < since ==> elapsed(since, now) == 0,
        has_elapsed(since, now, millis) <==> millis == 0 || now - since >= millis * 1_000_000,
{
}

/// Saturating arithmetic is exact up to the largest `u64` and stays there.
pub proof fn law_saturating_arithmetic(a: u64, b: u64)
    ensures
        a + b <= u64::MAX ==> saturating_sum(a as int, b as int) == a + b,
        a + b > u64::MAX ==> saturating_sum(a as int, b as int) == 0xffff_ffff_ffff_ffff,
        a * b <= u64::MAX ==> saturating_product(a as int, b as int) == a * b,
        a * b > u64::MAX ==> saturating_product(a as int, b as int) == 0xffff_ffff_ffff_ffff,
{
    assert(0 <= a * b) by (nonlinear_arith)
        requires
            0 <= a,
            0 <= b,
    ;
}

/// An open frame is asked for exactly if the receiver knows its peer, a chunk is
/// missing, a chunk has arrived or empty frames are asked for too, rounds are
/// left, the frame has been open for the delay, and the interval has passed
/// since it was last asked for. No due frame is passed over: one call asks for
/// all of them.
#[verifier::rlimit(60)]
pub proof fn law_every_due_frame_is_requested(
    m: UdpModel,
    config: UdpServerConfig<String>,
    now: u64,
    unix_us: u64,
    frame_id: u64,
)
    requires
        m.wf(),
        m.frames.contains_key(frame_id),
    ensures
        ({
            let frame = m.frames[frame_id];
            let requests = due_nacks(m, config, now, unix_us);
            (exists|k: int| 0 <= k < requests.len() && (#[trigger] requests[k]).frame_id == frame_id)
                <==> {
                &&& m.peer is Some
                &&& exists|i: int| 0 <= i < frame.chunk_count && !(#[trigger] frame.seen[i])
                &&& config.nack_empty_frames || exists|i: int|
                    0 <= i < frame.chunk_count && #[trigger] frame.seen[i]
                &&& frame.nack_rounds < config.nack_rounds
                &&& config.nack_delay_ms == 0 || now - frame.started >= config.nack_delay_ms * 1_000_000
                &&& frame.last_nack is Some ==> config.nack_interval_ms == 0 || now
                    - frame.last_nack->Some_0 >= config.nack_interval_ms * 1_000_000
            }
        }),
{
    let frame = m.frames[frame_id];
    let due = |id: u64| nack_due(config, m.frames[id], now);
    lemma_sorted_lists(m.frames.dom());
    lemma_filter_of_listing(sorted(m.frames.dom()), m.frames.dom(), due);
    let ids = sorted(m.frames.dom()).filter(due);
    let requests = due_nacks(m, config, now, unix_us);
    assert(frame.pending());
    lemma_count_bounds(frame.seen);
    let marked = exists|i: int| 0 <= i < frame.chunk_count && #[trigger] frame.seen[i];
    assert(marked <==> frame.chunks_seen() > 0);
    assert(exists|i: int| 0 <= i < frame.chunk_count && !(#[trigger] frame.seen[i]));
    if m.peer is Some {
        assert(requests.len() == ids.len());
        assert forall|k: int| 0 <= k < requests.len() implies (#[trigger] requests[k]).frame_id == ids[k] by {
        }
        if due(frame_id) {
            assert(m.frames.dom().filter(due).contains(frame_id));
            assert(ids.to_set().contains(frame_id));
            let k = choose|k: int| 0 <= k < ids.len() && ids[k] == frame_id;
            assert(requests[k].frame_id == frame_id);
        }
        if exists|k: int| 0 <= k < requests.len() && (#[trigger] requests[k]).frame_id == frame_id {
            let k = choose|k: int| 0 <= k < requests.len() && (#[trigger] requests[k]).frame_id == frame_id;
            assert(due(ids[k]));
        }
    }
}

/// The set of frames that are asked for is the set of open frames that are due,
/// each once and in ascending order.
pub proof fn law_requested_frames_are_the_due_ones(
    m: UdpModel,
    config: UdpServerConfig<String>,
    now: u64,
    unix_us: u64,
)
    requires
        m.wf(),
    ensures
        ({
            let requests = due_nacks(m, config, now, unix_us);
            &&& requests.map_values(|request: NackModel| request.frame_id).to_set() == if m.peer is Some {
                m.frames.dom().filter(|id: u64| nack_due(config, m.frames[id], now))
            } else {
                Set::empty()
            }
            &&& forall|i: int, j: int|
                0 <= i < j < requests.len() ==> requests[i].frame_id < requests[j].frame_id
        }),
{
    let due = |id: u64| nack_due(config, m.frames[id], now);
    lemma_sorted_lists(m.frames.dom());
    lemma_filter_of_listing(sorted(m.frames.dom()), m.frames.dom(), due);
    let ids = sorted(m.frames.dom()).filter(due);
    let requests = due_nacks(m, config, now, unix_us);
    if m.peer is Some {
        assert(requests.map_values(|request: NackModel| request.frame_id) =~= ids);
    } else {
        assert(requests.map_values(|request: NackModel| request.frame_id).to_set() =~= Set::empty());
    }
}

/// A request names the missing chunks of its frame from the first one on: each
/// chunk it names is missing, and a missing chunk that it leaves out comes after
/// all that it names, which are then as many as a request may name. The packet
/// carries them for the frame's session, with its shape.
#[verifier::rlimit(60)]
pub proof fn law_request_holds_the_first_missing_chunks(
    m: UdpModel,
    config: UdpServerConfig<String>,
    now: u64,
    unix_us: u64,
    at: int,
)
    requires
        m.wf(),
        udp_server_fault(config) is None,
        0 <= at < due_nacks(m, config, now, unix_us).len(),
    ensures
        ({
            let request = due_nacks(m, config, now, unix_us)[at];
            let frame = m.frames[request.frame_id];
            let chunks = requested_indexes(request.packet.skip(47));
            let header = decoded_udp_packet(request.packet)->Ok_0;
            &&& m.frames.contains_key(request.frame_id)
            &&& decoded_udp_packet(request.packet) is Ok
            &&& header.packet_type == 3
            &&& header.session_id == frame.session_id
            &&& header.frame_id == request.frame_id
            &&& header.chunk_count == frame.chunk_count
            &&& header.frame_size == frame.frame_size
            &&& header.payload_len == 4 * chunks.len()
            &&& header.sent_unix_us == unix_us
            &&& request.missing == chunks.len()
            &&& 0 < chunks.len() <= config.nack_max_chunks
            &&& forall|i: int|
                0 <= i < chunks.len() ==> (#[trigger] chunks[i]) < frame.chunk_count
                    && !frame.seen[chunks[i] as int]
            &&& forall|i: int, j: int| 0 <= i < j < chunks.len() ==> chunks[i] < chunks[j]
            &&& forall|index: u32, k: int|
                index < frame.chunk_count && !(#[trigger] frame.seen[index as int]) && !chunks.contains(
                    index,
                ) && 0 <= k < chunks.len() ==> chunks.len() == config.nack_max_chunks
                    && #[trigger] chunks[k] < index
        }),
{
    law_requests_read_back(m, config, now, unix_us, at);
    let request = due_nacks(m, config, now, unix_us)[at];
    let frame = m.frames[request.frame_id];
    let chunks = requested_chunks(frame, config.nack_max_chunks);
    let all = unset_indexes(frame.seen);
    assert(frame.pending());
    lemma_unset_indexes(frame.seen);
    assert(forall|i: int| 0 <= i < chunks.len() ==> chunks[i] == all[i]);
    assert forall|index: u32, k: int|
        index < frame.chunk_count && !(#[trigger] frame.seen[index as int]) && !chunks.contains(index)
            && 0 <= k < chunks.len() implies chunks.len() == config.nack_max_chunks && #[trigger] chunks[k]
        < index by {
        assert(all.contains(index));
        let place = all.index_of(index);
        if place < chunks.len() {
            assert(chunks[place] == index);
        }
    }
    let lacks = choose|i: int| 0 <= i < frame.seen.len() && !frame.seen[i];
    lemma_count_bounds(frame.seen);
    assert(all.len() > 0);
}

/// A request that has been sent is noted on its frame alone: the frame's round
/// count grows by one and its clock starts anew, and the counters grow by one
/// packet and by the chunks that were named.
pub proof fn law_sent_request_is_noted(
    m: UdpModel,
    verbose: bool,
    frame_id: u64,
    missing: u32,
    now: u64,
    other: u64,
)
    requires
        m.frames.contains_key(frame_id),
        m.frames[frame_id].nack_rounds < u32::MAX,
        m.counters.nack_packets_sent < u64::MAX,
        m.counters.nack_chunks_requested + missing <= u64::MAX,
    ensures
        ({
            let after = nack_recorded(m, verbose, frame_id, missing, now);
            let frame = after.frames[frame_id];
            &&& frame.nack_rounds == m.frames[frame_id].nack_rounds + 1
            &&& frame.last_nack == Some(now)
            &&& frame.seen == m.frames[frame_id].seen
            &&& frame.started == m.frames[frame_id].started
            &&& frame.bytes_seen == m.frames[frame_id].bytes_seen
            &&& after.frames.dom() == m.frames.dom()
            &&& other != frame_id && m.frames.contains_key(other) ==> after.frames[other]
                == m.frames[other]
            &&& after.counters.nack_packets_sent == m.counters.nack_packets_sent + 1
            &&& after.counters.nack_chunks_requested == m.counters.nack_chunks_requested + missing
            &&& after.completed == m.completed
            &&& after.session == m.session
            &&& after.log.len() == m.log.len() + if verbose { 1int } else { 0int }
        }),
{
    assert(nack_recorded(m, verbose, frame_id, missing, now).frames.dom() =~= m.frames.dom());
}

/// The chunk numbers of a request stand one behind the other, four bytes each,
/// and are read from there.
pub proof fn law_request_numbers_are_words(indexes: Seq<u32>, payload: Seq<u8>, at: int)
    ensures
        index_bytes(indexes).len() == 4 * indexes.len(),
        0 <= at < indexes.len() ==> word(index_bytes(indexes), 4 * at) == indexes[at],
        requested_indexes(payload).len() == payload.len() / 4,
        0 <= at < payload.len() / 4 ==> requested_indexes(payload)[at] == word(payload, 4 * at),
    decreases indexes.len(),
{
    if 0 <= at < payload.len() / 4 {
        lemma_be_value4(payload.subrange(4 * at, 4 * at + 4));
    }
    if indexes.len() > 0 {
        let head = indexes.drop_last();
        let last = indexes.last();
        law_request_numbers_are_words(head, payload, at);
        lemma_be4(last as nat);
        let all = index_bytes(indexes);
        if at == indexes.len() - 1 {
            let tail = be_bytes(last as nat, 4);
            assert(all[4 * at] == tail[0] && all[4 * at + 1] == tail[1] && all[4 * at + 2] == tail[2]
                && all[4 * at + 3] == tail[3]);
        } else if 0 <= at < head.len() {
            let front = index_bytes(head);
            assert(all[4 * at] == front[4 * at] && all[4 * at + 1] == front[4 * at + 1] && all[4 * at + 2]
                == front[4 * at + 2] && all[4 * at + 3] == front[4 * at + 3]);
        }
    }
}

/// A report goes out as a packet of its own type for the session, under the
/// largest frame number observed, with the report as its payload.
pub proof fn law_report_packet(m: UdpModel, session_id: u64, unix_us: u64)
    ensures
        ({
            let packet = status_packet_bytes(m, session_id, unix_us);
            &&& packet.len() == 91
            &&& packet[6] == 5
            &&& long(packet, 7) == session_id
            &&& long(packet, 15) == match m.last_observed {
                Some(frame_id) => frame_id,
                None => 0xffff_ffff_ffff_ffff,
            }
            &&& word(packet, 23) == 0 && word(packet, 27) == 0 && word(packet, 31) == 0
            &&& word(packet, 35) == 44
            &&& long(packet, 39) == unix_us
            &&& packet.skip(47) == status_bytes(status_message(m))
        }),
{
    law_report_layout(status_message(m));
    law_packet_layout(status_header(m, session_id, unix_us), status_bytes(status_message(m)));
}

} // verus!
