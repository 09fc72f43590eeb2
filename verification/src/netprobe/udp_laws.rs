//! What holds of the UDP receiver whatever arrives.
use vstd::prelude::*;

use crate::bytes::{be_bytes, law_be_value_of_bytes, lemma_be_len, lemma_radix};
use crate::netprobe::clock::{has_elapsed, saturating_product, saturating_sum};
use crate::netprobe::config::{udp_server_fault, UdpServerConfig};
use crate::netprobe::frames::{
    law_accept_chunk, lemma_count_bounds, lemma_sorted_lists, lemma_unset_indexes, sorted, unset_indexes,
    FrameModel,
};
use crate::netprobe::udp_server::{
    can_open, chunk_handled, chunk_taken, datagram_handled, drop_counted, dropped_so_far,
    drops_initial, due_nacks, expired, expired_ids, fresh_receiver, gap_end, gaps_opened, index_bytes,
    initial_drop_applied, initial_drop_counted, lemma_filter_of_listing, mismatched, nack_due, nack_for, nack_header,
    nack_recorded, observed, opened, opened_range, packet_noted, remembered, requested_chunks,
    requested_indexes, serviced, session_entered, status_header, status_message, status_packet_bytes,
    ExpireReason, OpenKind, PeerAddr, UdpCounters, UdpEvent, UdpModel, Verdict,
};
use crate::netprobe::wire::{
    decoded_udp_packet, law_udp_packet_round_trip, law_udp_status_round_trip, status_bytes,
    status_of, UdpVideoPacketHeader, WireError, UDP_PACKET_ANNOUNCE, UDP_PACKET_BYE, UDP_PACKET_HEADER_LEN,
    UDP_PACKET_NACK, UDP_PACKET_VIDEO,
};

verus! {

// ---------------------------------------------------------------------------
// The invariant
// ---------------------------------------------------------------------------

proof fn lemma_opened_frame(header: UdpVideoPacketHeader, now: u64)
    requires
        header.chunk_count > 0,
    ensures
        FrameModel::opened(
            header.session_id,
            header.frame_size,
            header.chunk_count,
            header.sent_unix_us,
            now,
        ).pending(),
{
    lemma_count_bounds(
        FrameModel::opened(
            header.session_id,
            header.frame_size,
            header.chunk_count,
            header.sent_unix_us,
            now,
        ).seen,
    );
}

/// Opening a range of frames opens exactly those of the range that are neither
/// open nor completed, leaves the open ones and the completed ones as they are,
/// and counts at most one frame per number of the range.
pub proof fn law_opened_range(
    m: UdpModel,
    header: UdpVideoPacketHeader,
    from: int,
    to: int,
    quiet: bool,
    now: u64,
)
    requires
        0 <= from <= to <= u64::MAX + 1,
    ensures
        ({
            let (next, count) = opened_range(m, header, from, to, quiet, now);
            &&& forall|id: u64| #[trigger]
                next.frames.contains_key(id) <==> m.frames.contains_key(id) || (from <= id < to
                    && can_open(m, id))
            &&& forall|id: u64| #[trigger]
                m.frames.contains_key(id) ==> next.frames[id] == m.frames[id]
            &&& forall|id: u64| #[trigger]
                next.frames.contains_key(id) && !m.frames.contains_key(id) ==> next.frames[id]
                    == FrameModel::opened(
                    header.session_id,
                    header.frame_size,
                    header.chunk_count,
                    header.sent_unix_us,
                    now,
                )
            &&& next.completed == m.completed
            &&& count <= to - from
            &&& next == UdpModel { frames: next.frames, log: next.log, ..m }
            &&& m.frames.dom().finite() ==> next.frames.dom().finite()
        }),
    decreases to - from,
{
    if from < to {
        law_opened_range(m, header, from, to - 1, quiet, now);
    }
}

/// A jump of the frame number opens at most 120 frames, all of them behind the
/// last one observed and before the one that arrived, none of them completed.
pub proof fn law_gaps_bounded(
    m: UdpModel,
    header: UdpVideoPacketHeader,
    last: u64,
    quiet: bool,
    now: u64,
)
    ensures
        ({
            let next = gaps_opened(m, header, last, quiet, now);
            &&& forall|id: u64| #[trigger]
                next.frames.contains_key(id) && !m.frames.contains_key(id) ==> last < id
                    < header.frame_id && id <= last + 120 && can_open(m, id)
            &&& forall|id: u64| #[trigger]
                m.frames.contains_key(id) ==> next.frames.contains_key(id) && next.frames[id]
                    == m.frames[id]
            &&& forall|id: u64|
                last < id < header.frame_id && id <= last + 120 && #[trigger] can_open(m, id)
                    ==> next.frames.contains_key(id)
            &&& next.completed == m.completed
        }),
{
    if header.frame_id > last + 1 {
        law_opened_range(m, header, last + 1, gap_end(last, header.frame_id), quiet, now);
    }
}

proof fn lemma_gaps_wf(m: UdpModel, header: UdpVideoPacketHeader, last: u64, quiet: bool, now: u64)
    requires
        m.wf(),
        header.chunk_count > 0,
    ensures
        gaps_opened(m, header, last, quiet, now).wf(),
{
    lemma_opened_frame(header, now);
    if header.frame_id > last + 1 {
        law_opened_range(m, header, last + 1, gap_end(last, header.frame_id), quiet, now);
        let (next, count) = opened_range(
            m,
            header,
            last + 1,
            gap_end(last, header.frame_id),
            quiet,
            now,
        );
        assert forall|id: u64| #[trigger] next.frames.contains_key(id) implies next.frames[id].pending()
            && !next.completed.contains_key(id) by {
            if m.frames.contains_key(id) {
                assert(next.frames[id] == m.frames[id]);
            }
        }
        let all = gaps_opened(m, header, last, quiet, now);
        assert(all.frames == next.frames && all.completed == next.completed);
    }
}

proof fn lemma_chunk_taken_wf(
    m: UdpModel,
    config: UdpServerConfig<String>,
    header: UdpVideoPacketHeader,
    now: u64,
)
    requires
        m.wf(),
        m.frames.contains_key(header.frame_id),
        !mismatched(m, header),
        header.chunk_index < header.chunk_count,
    ensures
        chunk_taken(m, config, header, now).wf(),
{
    let frame = m.frames[header.frame_id];
    law_accept_chunk(frame, header.chunk_index as int, header.payload_len);
    lemma_count_bounds(frame.accepted(header.chunk_index as int, header.payload_len).seen);
}

proof fn lemma_expired_wf(m: UdpModel, reason: ExpireReason, now: u64, timeout_ms: u64)
    requires
        m.wf(),
    ensures
        expired(m, reason, now, timeout_ms).wf(),
{
    let lost = expired_ids(m.frames, now, timeout_ms).to_set();
    assert(m.frames.remove_keys(lost).dom() =~= m.frames.dom().difference(lost));
}

/// Whatever datagram arrives, finitely many frames are open, they wait for chunks
/// and no frame is both open and completed.
pub proof fn law_datagram_keeps_invariant(
    m: UdpModel,
    config: UdpServerConfig<String>,
    data: Seq<u8>,
    addr: PeerAddr,
    now: u64,
)
    requires
        m.wf(),
    ensures
        datagram_handled(m, config, data, addr, now).0.wf(),
{
    let noted = packet_noted(m, addr, now);
    assert(noted.wf());
    lemma_expired_wf(noted, ExpireReason::Bye, now, 0);
    lemma_expired_wf(noted, ExpireReason::SessionReplaced, now, 0);
    match decoded_udp_packet(data) {
        Ok(header) => {
            if header.packet_type != UDP_PACKET_BYE && header.packet_type != UDP_PACKET_NACK {
                let entered = if header.packet_type == UDP_PACKET_VIDEO || header.packet_type
                    == UDP_PACKET_ANNOUNCE {
                    session_entered(noted, header.session_id, addr, now)
                } else {
                    noted
                };
                assert(entered.wf());
                let ruled = initial_drop_applied(
                    entered,
                    config.drop_initial_frame_video_every,
                    header,
                );
                assert(ruled.wf());
                if header.chunk_count > 0 && header.chunk_index < header.chunk_count {
                    lemma_opened_frame(header, now);
                    if let Some(last) = ruled.last_observed {
                        lemma_gaps_wf(ruled, header, last, config.quiet_frames, now);
                    }
                    let seen = observed(ruled, header, config.quiet_frames, now);
                    assert(seen.wf());
                    lemma_chunk_handled_wf(seen, config, header, now);
                }
            }
        },
        Err(_) => {},
    }
}

proof fn lemma_chunk_handled_wf(
    m: UdpModel,
    config: UdpServerConfig<String>,
    header: UdpVideoPacketHeader,
    now: u64,
)
    requires
        m.wf(),
        header.chunk_count > 0,
        header.chunk_index < header.chunk_count,
    ensures
        chunk_handled(m, config, header, now).0.wf(),
{
    lemma_opened_frame(header, now);
    if !m.completed.contains_key(header.frame_id) {
        let kept = opened(
            opening(m, config, header),
            header,
            OpenKind::Chunk(header.chunk_index),
            config.quiet_frames,
            now,
        );
        assert(kept.wf());
        if !mismatched(kept, header) {
            lemma_chunk_taken_wf(kept, config, header, now);
        }
    }
}

/// The receiver between counting a chunk and opening its frame.
spec fn opening(m: UdpModel, config: UdpServerConfig<String>, header: UdpVideoPacketHeader) -> UdpModel {
    UdpModel {
        counters: UdpCounters {
            chunks_total: saturating_sum(m.counters.chunks_total as int, 1),
            bytes_total: saturating_sum(
                m.counters.bytes_total as int,
                header.payload_len as int,
            ),
            ..m.counters
        },
        ..m
    }.logged_if(
        config.verbose_chunks,
        UdpEvent::Chunk {
            frame_id: header.frame_id,
            chunk_index: header.chunk_index,
            chunk_count: header.chunk_count,
            payload_len: header.payload_len,
        },
    )
}

// ---------------------------------------------------------------------------
// Frames
// ---------------------------------------------------------------------------

/// Giving up frames removes exactly those that have been open for the timeout,
/// counts each of them once and leaves every other frame as it is.
pub proof fn law_expiry(m: UdpModel, reason: ExpireReason, now: u64, timeout_ms: u64)
    requires
        m.wf(),
        m.has_room(),
    ensures
        ({
            let next = expired(m, reason, now, timeout_ms);
            &&& forall|id: u64| #[trigger]
                next.frames.contains_key(id) <==> m.frames.contains_key(id) && !has_elapsed(
                    m.frames[id].started,
                    now,
                    timeout_ms,
                )
            &&& forall|id: u64| #[trigger]
                next.frames.contains_key(id) ==> next.frames[id] == m.frames[id]
            &&& next.counters.frames_expired + next.frames.dom().len() == m.counters.frames_expired
                + m.frames.dom().len()
            &&& next.completed == m.completed
        }),
{
    let due = |id: u64| has_elapsed(m.frames[id].started, now, timeout_ms);
    lemma_sorted_lists(m.frames.dom());
    lemma_filter_of_listing(sorted(m.frames.dom()), m.frames.dom(), due);
    let lost = expired_ids(m.frames, now, timeout_ms);
    let next = expired(m, reason, now, timeout_ms);
    assert(lost.to_set() == m.frames.dom().filter(due));
    lost.unique_seq_to_set();
    let kept = m.frames.dom().difference(lost.to_set());
    assert(next.frames.dom() =~= kept);
    vstd::set_lib::lemma_len_subset(lost.to_set(), m.frames.dom());
    vstd::set_lib::lemma_set_disjoint_lens(kept, lost.to_set());
    assert(kept + lost.to_set() =~= m.frames.dom());
}

/// With a timeout of zero all open frames are given up.
pub proof fn law_expiry_of_all(m: UdpModel, reason: ExpireReason, now: u64)
    requires
        m.wf(),
        m.has_room(),
    ensures
        expired(m, reason, now, 0).frames == Map::<u64, FrameModel>::empty(),
        expired(m, reason, now, 0).counters.frames_expired == m.counters.frames_expired
            + m.frames.dom().len(),
{
    law_expiry(m, reason, now, 0);
    assert(expired(m, reason, now, 0).frames =~= Map::<u64, FrameModel>::empty());
}

/// A chunk touches only its own frame: what is missing of other frames neither
/// blocks it nor changes.
pub proof fn law_chunk_leaves_other_frames(
    m: UdpModel,
    config: UdpServerConfig<String>,
    header: UdpVideoPacketHeader,
    now: u64,
    other: u64,
)
    requires
        other != header.frame_id,
    ensures
        chunk_handled(m, config, header, now).0.frames.contains_key(other)
            == m.frames.contains_key(other),
        m.frames.contains_key(other) ==> chunk_handled(m, config, header, now).0.frames[other]
            == m.frames[other],
{
}

/// A datagram that neither ends the session nor starts another one leaves every
/// open frame but its own as it is: what is missing of one frame does not hold up
/// another.
pub proof fn law_datagram_leaves_other_frames(
    m: UdpModel,
    config: UdpServerConfig<String>,
    data: Seq<u8>,
    addr: PeerAddr,
    now: u64,
    other: u64,
)
    requires
        m.frames.contains_key(other),
        decoded_udp_packet(data) matches Ok(header) ==> {
            &&& header.packet_type != UDP_PACKET_BYE
            &&& m.session is None || m.session == Some(header.session_id)
            &&& header.frame_id != other
        },
    ensures
        ({
            let next = datagram_handled(m, config, data, addr, now).0;
            next.frames.contains_key(other) && next.frames[other] == m.frames[other]
        }),
{
    let noted = packet_noted(m, addr, now);
    if let Ok(header) = decoded_udp_packet(data) {
        let entered = if header.packet_type == UDP_PACKET_VIDEO || header.packet_type
            == UDP_PACKET_ANNOUNCE {
            session_entered(noted, header.session_id, addr, now)
        } else {
            noted
        };
        assert(entered.frames == m.frames);
        let ruled = initial_drop_applied(entered, config.drop_initial_frame_video_every, header);
        assert(ruled.frames == m.frames);
        if let Some(last) = ruled.last_observed {
            law_gaps_bounded(ruled, header, last, config.quiet_frames, now);
        }
        let seen = observed(ruled, header, config.quiet_frames, now);
        assert(seen.frames.contains_key(other) && seen.frames[other] == m.frames[other]);
        law_chunk_leaves_other_frames(seen, config, header, now, other);
    }
}

/// The announcement of a frame keeps the receiver in step with the sender even if
/// nothing else of the frame arrives: the frame number has been observed, and the
/// frame is open, unless it is completed, as are the frames that were jumped over,
/// up to the limit.
pub proof fn law_announcement_is_observed(
    m: UdpModel,
    config: UdpServerConfig<String>,
    data: Seq<u8>,
    addr: PeerAddr,
    now: u64,
    skipped: u64,
)
    requires
        config.drop_every == 0,
        decoded_udp_packet(data) matches Ok(header) && header.packet_type == UDP_PACKET_ANNOUNCE
            && header.chunk_index < header.chunk_count,
    ensures
        ({
            let header = decoded_udp_packet(data)->Ok_0;
            let next = datagram_handled(m, config, data, addr, now).0;
            &&& next.session == Some(header.session_id)
            &&& next.last_observed matches Some(last) && last >= header.frame_id
            &&& !can_open(next, header.frame_id)
            &&& m.session == Some(header.session_id) && (m.last_observed matches Some(last) && last
                < skipped < header.frame_id && skipped <= last + 120) ==> !can_open(next, skipped)
        }),
{
    let header = decoded_udp_packet(data)->Ok_0;
    let noted = packet_noted(m, addr, now);
    let entered = session_entered(noted, header.session_id, addr, now);
    let ruled = initial_drop_applied(entered, config.drop_initial_frame_video_every, header);
    assert(ruled == entered);
    if let Some(last) = ruled.last_observed {
        law_gaps_bounded(ruled, header, last, config.quiet_frames, now);
        if header.frame_id > last + 1 {
            law_opened_range(
                ruled,
                header,
                last + 1,
                gap_end(last, header.frame_id),
                config.quiet_frames,
                now,
            );
        }
        if last < skipped < header.frame_id && skipped <= last + 120 && can_open(ruled, skipped) {
            assert(gaps_opened(ruled, header, last, config.quiet_frames, now).frames.contains_key(
                skipped,
            ));
        }
    }
}

/// A frame is completed by the arrival of its last missing chunk and by nothing
/// else; it is counted once and then remembered, so that it is not opened again.
pub proof fn law_last_chunk_completes(
    m: UdpModel,
    config: UdpServerConfig<String>,
    header: UdpVideoPacketHeader,
    now: u64,
)
    requires
        m.wf(),
        m.frames.contains_key(header.frame_id),
        !mismatched(m, header),
        header.chunk_index < header.chunk_count,
        config.frame_timeout_ms > 0,
        m.counters.frames_complete < u64::MAX,
    ensures
        ({
            let frame = m.frames[header.frame_id];
            let next = chunk_taken(m, config, header, now);
            let last_one = forall|i: int|
                0 <= i < frame.chunk_count && i != header.chunk_index ==> frame.seen[i];
            &&& next.counters.frames_complete == m.counters.frames_complete + if last_one {
                1int
            } else {
                0int
            }
            &&& next.frames.contains_key(header.frame_id) <==> !last_one
            &&& last_one ==> next.completed.contains_key(header.frame_id) && !can_open(
                next,
                header.frame_id,
            )
        }),
{
    let frame = m.frames[header.frame_id];
    let index = header.chunk_index as int;
    let after = frame.accepted(index, header.payload_len);
    law_accept_chunk(frame, index, header.payload_len);
    law_accept_chunk(after, index, header.payload_len);
    lemma_count_bounds(frame.seen);
    assert(forall|i: int| 0 <= i < frame.chunk_count ==> after.seen[i] == (i == index || frame.seen[i]));
    let last_one = forall|i: int|
        0 <= i < frame.chunk_count && i != header.chunk_index ==> frame.seen[i];
    if after.complete() {
        assert(last_one);
    }
    let retention = saturating_product(config.frame_timeout_ms as int, 2);
    assert(retention > 0);
    assert(!has_elapsed(now, now, retention));
}

/// A chunk of a completed frame changes the totals of chunks and bytes and
/// nothing else but the log.
pub proof fn law_late_chunk_is_counted_only(
    m: UdpModel,
    config: UdpServerConfig<String>,
    header: UdpVideoPacketHeader,
    now: u64,
)
    requires
        m.completed.contains_key(header.frame_id),
    ensures
        ({
            let (next, taken) = chunk_handled(m, config, header, now);
            &&& !taken
            &&& next == UdpModel { counters: next.counters, log: next.log, ..m }
            &&& next.counters == UdpCounters {
                chunks_total: next.counters.chunks_total,
                bytes_total: next.counters.bytes_total,
                ..m.counters
            }
        }),
{
}

// ---------------------------------------------------------------------------
// Requests and reports
// ---------------------------------------------------------------------------

/// A request names chunks of an open frame that are missing, in ascending order,
/// at least one and at most the limit; it names all of them where the limit
/// allows it.
pub proof fn law_request_names_missing_chunks(frame: FrameModel, max: u32)
    requires
        frame.pending(),
        max > 0,
    ensures
        ({
            let chunks = requested_chunks(frame, max);
            &&& 0 < chunks.len() <= max
            &&& forall|i: int|
                0 <= i < chunks.len() ==> (#[trigger] chunks[i]) < frame.chunk_count
                    && !frame.seen[chunks[i] as int]
            &&& forall|i: int, j: int| 0 <= i < j < chunks.len() ==> chunks[i] < chunks[j]
            &&& frame.chunk_count - frame.chunks_seen() <= max ==> forall|index: u32|
                index < frame.chunk_count && !frame.seen[index as int] ==> #[trigger] chunks.contains(
                    index,
                )
        }),
{
    let all = unset_indexes(frame.seen);
    let chunks = requested_chunks(frame, max);
    lemma_unset_indexes(frame.seen);
    if all.len() <= max {
        assert(chunks =~= all);
    }
    assert forall|i: int| 0 <= i < chunks.len() implies (#[trigger] chunks[i]) < frame.chunk_count
        && !frame.seen[chunks[i] as int] by {
        assert(chunks[i] == all[i]);
    }
}

pub proof fn lemma_index_bytes_len(indexes: Seq<u32>)
    ensures
        index_bytes(indexes).len() == indexes.len() * 4,
    decreases indexes.len(),
{
    if indexes.len() > 0 {
        lemma_index_bytes_len(indexes.drop_last());
        lemma_be_len(indexes.last() as nat, 4);
    }
}

proof fn lemma_index_bytes_field(indexes: Seq<u32>, at: int)
    requires
        0 <= at < indexes.len(),
    ensures
        index_bytes(indexes).subrange(4 * at, 4 * at + 4) == be_bytes(indexes[at] as nat, 4),
    decreases indexes.len(),
{
    broadcast use lemma_be_len;

    let head = indexes.drop_last();
    lemma_index_bytes_len(indexes);
    lemma_index_bytes_len(head);
    let all = index_bytes(indexes);
    if at == indexes.len() - 1 {
        assert(all.subrange(4 * at, 4 * at + 4) =~= be_bytes(indexes[at] as nat, 4));
    } else {
        lemma_index_bytes_field(head, at);
        assert(all.subrange(4 * at, 4 * at + 4) =~= index_bytes(head).subrange(4 * at, 4 * at + 4));
    }
}

/// The chunk indexes written into a request are those read out of it.
pub proof fn law_request_indexes_round_trip(indexes: Seq<u32>)
    ensures
        requested_indexes(index_bytes(indexes)) == indexes,
{
    lemma_index_bytes_len(indexes);
    let payload = index_bytes(indexes);
    assert forall|i: int| 0 <= i < indexes.len() implies requested_indexes(payload)[i] == indexes[i] by {
        lemma_index_bytes_field(indexes, i);
        lemma_radix();
        law_be_value_of_bytes(indexes[i] as nat, 4);
    }
    assert(requested_indexes(payload) =~= indexes);
}

/// Every request that goes out is a well-formed packet for an open frame that is
/// due, and its reader finds in it the chunks that are missing.
pub proof fn law_requests_read_back(
    m: UdpModel,
    config: UdpServerConfig<String>,
    now: u64,
    unix_us: u64,
    at: int,
)
    requires
        m.wf(),
        udp_server_fault(config) is None,
        0 <= at < due_nacks(m, config, now, unix_us).len(),
    ensures
        ({
            let request = due_nacks(m, config, now, unix_us)[at];
            let frame = m.frames[request.frame_id];
            let chunks = requested_chunks(frame, config.nack_max_chunks);
            &&& m.frames.contains_key(request.frame_id)
            &&& nack_due(config, frame, now)
            &&& decoded_udp_packet(request.packet) == Ok::<UdpVideoPacketHeader, WireError>(
                nack_header(request.frame_id, frame, chunks.len(), unix_us),
            )
            &&& requested_indexes(request.packet.skip(UDP_PACKET_HEADER_LEN as int)) == chunks
            &&& request.missing == chunks.len()
        }),
{
    let due = |id: u64| nack_due(config, m.frames[id], now);
    lemma_sorted_lists(m.frames.dom());
    lemma_filter_of_listing(sorted(m.frames.dom()), m.frames.dom(), due);
    let ids = sorted(m.frames.dom()).filter(due);
    let request = due_nacks(m, config, now, unix_us)[at];
    let id = ids[at];
    assert(request == nack_for(id, m.frames[id], config.nack_max_chunks, unix_us));
    let frame = m.frames[id];
    let chunks = requested_chunks(frame, config.nack_max_chunks);
    assert(frame.pending());
    law_request_names_missing_chunks(frame, config.nack_max_chunks);
    lemma_index_bytes_len(chunks);
    law_request_indexes_round_trip(chunks);
    law_udp_packet_round_trip(nack_header(id, frame, chunks.len(), unix_us), index_bytes(chunks));
}

/// After a request the frame asks again only once the interval has passed, and
/// never more often than the configured rounds.
pub proof fn law_requests_are_spaced(
    m: UdpModel,
    config: UdpServerConfig<String>,
    frame_id: u64,
    missing: u32,
    now: u64,
    later: u64,
)
    requires
        m.frames.contains_key(frame_id),
        m.frames[frame_id].nack_rounds < config.nack_rounds,
        nack_due(
            config,
            nack_recorded(m, config.verbose_chunks, frame_id, missing, now).frames[frame_id],
            later,
        ),
    ensures
        has_elapsed(now, later, config.nack_interval_ms),
        m.frames[frame_id].nack_rounds + 1 < config.nack_rounds,
{
}

/// With zero rounds no request ever goes out; without `nack_empty_frames` none
/// goes out for a frame of which nothing has arrived.
pub proof fn law_requests_can_be_disabled(
    m: UdpModel,
    config: UdpServerConfig<String>,
    now: u64,
    unix_us: u64,
)
    requires
        m.wf(),
    ensures
        config.nack_rounds == 0 ==> due_nacks(m, config, now, unix_us).len() == 0,
        !config.nack_empty_frames ==> forall|at: int|
            0 <= at < due_nacks(m, config, now, unix_us).len()
                ==> m.frames[(#[trigger] due_nacks(m, config, now, unix_us)[at]).frame_id].chunks_seen() > 0,
{
    let due = |id: u64| nack_due(config, m.frames[id], now);
    lemma_sorted_lists(m.frames.dom());
    lemma_filter_of_listing(sorted(m.frames.dom()), m.frames.dom(), due);
    let ids = sorted(m.frames.dom()).filter(due);
    if m.peer is Some {
        assert(due_nacks(m, config, now, unix_us).len() == ids.len());
        if config.nack_rounds == 0 && ids.len() > 0 {
            assert(due(ids[0]));
        }
        assert forall|at: int| 0 <= at < ids.len() && !config.nack_empty_frames implies m.frames[(
        #[trigger] due_nacks(m, config, now, unix_us)[at]).frame_id].chunks_seen() > 0 by {
            assert(due(ids[at]));
        }
    }
}

/// A status report is a well-formed packet, and its reader finds in it the
/// receiver's progress.
pub proof fn law_status_reads_back(m: UdpModel, session_id: u64, unix_us: u64)
    ensures
        decoded_udp_packet(status_packet_bytes(m, session_id, unix_us)) == Ok::<
            UdpVideoPacketHeader,
            WireError,
        >(status_header(m, session_id, unix_us)),
        status_of(status_packet_bytes(m, session_id, unix_us).skip(UDP_PACKET_HEADER_LEN as int))
            == status_message(m),
{
    law_udp_status_round_trip(status_message(m));
    law_udp_packet_round_trip(status_header(m, session_id, unix_us), status_bytes(status_message(m)));
}

/// With an interval of zero no status report goes out, neither in between nor at
/// the end of the session.
pub proof fn law_reports_can_be_disabled(
    m: UdpModel,
    config: UdpServerConfig<String>,
    data: Seq<u8>,
    addr: PeerAddr,
    session_id: Option<u64>,
    now: u64,
)
    requires
        config.status_interval_ms == 0,
    ensures
        !serviced(m, config, session_id, now).1,
        datagram_handled(m, config, data, addr, now).1 matches Verdict::Finished { report_session }
            ==> report_session is None,
{
}

// ---------------------------------------------------------------------------
// Simulated loss
// ---------------------------------------------------------------------------

/// The counts after the drop rule has been applied to some packets.
pub open spec fn counts_after(counts: Map<u64, u32>, every: u64, headers: Seq<UdpVideoPacketHeader>) -> Map<
    u64,
    u32,
>
    decreases headers.len(),
{
    if headers.len() == 0 {
        counts
    } else {
        initial_drop_counted(counts_after(counts, every, headers.drop_last()), every, headers.last())
    }
}

/// The number of video packets of a frame among some packets.
pub open spec fn video_packets(headers: Seq<UdpVideoPacketHeader>, frame_id: u64) -> nat
    decreases headers.len(),
{
    if headers.len() == 0 {
        0
    } else {
        let before = video_packets(headers.drop_last(), frame_id);
        if headers.last().frame_id == frame_id && headers.last().packet_type == UDP_PACKET_VIDEO {
            before + 1
        } else {
            before
        }
    }
}

/// Of the video packets of every `every`th frame the first are dropped, as many
/// as the frame has chunks, and all later ones pass: whatever packets came before
/// and whatever else they say, a packet of a frame is dropped if and only if it
/// is a video packet, the rule covers its frame and fewer video packets of the
/// frame came before than it has chunks.
pub proof fn law_first_packet_set_is_dropped(
    counts: Map<u64, u32>,
    every: u64,
    headers: Seq<UdpVideoPacketHeader>,
    header: UdpVideoPacketHeader,
)
    requires
        !counts.contains_key(header.frame_id),
        forall|i: int|
            0 <= i < headers.len() && (#[trigger] headers[i]).frame_id == header.frame_id
                ==> headers[i].chunk_count == header.chunk_count,
    ensures
        ({
            let after = counts_after(counts, every, headers);
            let before = video_packets(headers, header.frame_id);
            let covered = every != 0 && header.frame_id % every == 0;
            &&& drops_initial(after, every, header) <==> covered && header.packet_type == UDP_PACKET_VIDEO
                && before < header.chunk_count
            &&& dropped_so_far(after, header.frame_id) == if !covered {
                0
            } else if before < header.chunk_count {
                before as int
            } else {
                header.chunk_count as int
            }
        }),
    decreases headers.len(),
{
    if headers.len() > 0 {
        let head = headers.drop_last();
        assert forall|i: int|
            0 <= i < head.len() && (#[trigger] head[i]).frame_id == header.frame_id implies head[i].chunk_count
            == header.chunk_count by {
            assert(head[i] == headers[i]);
        }
        law_first_packet_set_is_dropped(counts, every, head, header);
        assert(headers[headers.len() - 1] == headers.last());
    }
}

/// A packet that the drop rule does not cover is not dropped and leaves the counts
/// as they are.
pub proof fn law_other_packets_are_not_dropped(counts: Map<u64, u32>, every: u64, header: UdpVideoPacketHeader)
    requires
        every == 0 || header.frame_id % every != 0 || header.packet_type != UDP_PACKET_VIDEO,
    ensures
        !drops_initial(counts, every, header),
        initial_drop_counted(counts, every, header) == counts,
{
}

/// What arrives and when: a datagram, and when the receiver tends to its frames
/// after it.
pub struct Arrival {
    pub data: Seq<u8>,
    pub addr: PeerAddr,
    pub now: u64,
    pub serviced_at: u64,
}

/// The receiver after a datagram, where it sends no requests.
#[verifier::opaque]
pub open spec fn arrival_taken(m: UdpModel, config: UdpServerConfig<String>, arrival: Arrival) -> UdpModel {
    let (next, verdict) = datagram_handled(m, config, arrival.data, arrival.addr, arrival.now);
    match verdict {
        Verdict::Service { session_id } => serviced(next, config, Some(session_id), arrival.serviced_at).0,
        _ => next,
    }
}

/// The receiver after some datagrams, where it sends no requests.
pub open spec fn arrivals_taken(m: UdpModel, config: UdpServerConfig<String>, arrivals: Seq<Arrival>) -> UdpModel
    decreases arrivals.len(),
{
    if arrivals.len() == 0 {
        m
    } else {
        arrival_taken(arrivals_taken(m, config, arrivals.drop_last()), config, arrivals.last())
    }
}

/// The datagrams without every `every`th.
pub open spec fn surviving(arrivals: Seq<Arrival>, every: u64) -> Seq<Arrival>
    decreases arrivals.len(),
{
    if arrivals.len() == 0 {
        seq![]
    } else {
        let before = surviving(arrivals.drop_last(), every);
        if arrivals.len() % (every as nat) == 0 {
            before
        } else {
            before.push(arrivals.last())
        }
    }
}

/// Whether two receivers have made the same progress: they differ at most in how
/// many packets came and were dropped, in the peer, in when the last packet came
/// and the last report went out, and in the log.
pub open spec fn same_progress(one: UdpModel, other: UdpModel) -> bool {
    one == UdpModel {
        peer: one.peer,
        last_status_at: one.last_status_at,
        last_packet_at: one.last_packet_at,
        log: one.log,
        counters: UdpCounters {
            packets_total: one.counters.packets_total,
            packets_dropped: one.counters.packets_dropped,
            ..other.counters
        },
        ..other
    }
}

proof fn lemma_same_range(
    one: UdpModel,
    other: UdpModel,
    header: UdpVideoPacketHeader,
    from: int,
    to: int,
    quiet: bool,
    now: u64,
)
    requires
        same_progress(one, other),
    ensures
        same_progress(
            opened_range(one, header, from, to, quiet, now).0,
            opened_range(other, header, from, to, quiet, now).0,
        ),
        opened_range(one, header, from, to, quiet, now).1 == opened_range(
            other,
            header,
            from,
            to,
            quiet,
            now,
        ).1,
    decreases to - from,
{
    if from < to {
        lemma_same_range(one, other, header, from, to - 1, quiet, now);
    }
}

proof fn lemma_same_observed(one: UdpModel, other: UdpModel, header: UdpVideoPacketHeader, quiet: bool, now: u64)
    requires
        same_progress(one, other),
    ensures
        same_progress(observed(one, header, quiet, now), observed(other, header, quiet, now)),
{
    if let Some(last) = one.last_observed {
        lemma_same_range(one, other, header, last + 1, gap_end(last, header.frame_id), quiet, now);
    }
}

#[verifier::rlimit(30)]
proof fn lemma_same_chunk(
    one: UdpModel,
    other: UdpModel,
    config: UdpServerConfig<String>,
    without: UdpServerConfig<String>,
    header: UdpVideoPacketHeader,
    now: u64,
)
    requires
        same_progress(one, other),
        without == (UdpServerConfig { drop_every: 0, ..config }),
    ensures
        same_progress(
            chunk_handled(one, config, header, now).0,
            chunk_handled(other, without, header, now).0,
        ),
        chunk_handled(one, config, header, now).1 == chunk_handled(other, without, header, now).1,
{
}

#[verifier::rlimit(30)]
proof fn lemma_same_datagram(
    one: UdpModel,
    other: UdpModel,
    config: UdpServerConfig<String>,
    arrival: Arrival,
)
    requires
        same_progress(one, other),
        packet_noted(one, arrival.addr, arrival.now).counters.packets_total % config.drop_every != 0,
    ensures
        ({
            let without = UdpServerConfig { drop_every: 0, ..config };
            let (next, verdict) = datagram_handled(one, config, arrival.data, arrival.addr, arrival.now);
            let (other_next, other_verdict) = datagram_handled(
                other,
                without,
                arrival.data,
                arrival.addr,
                arrival.now,
            );
            &&& same_progress(next, other_next)
            &&& verdict == other_verdict
        }),
{
    let without = UdpServerConfig { drop_every: 0, ..config };
    let now = arrival.now;
    let addr = arrival.addr;
    let noted = packet_noted(one, addr, now);
    let other_noted = packet_noted(other, addr, now);
    if let Ok(header) = decoded_udp_packet(arrival.data) {
        let carries = header.packet_type == UDP_PACKET_VIDEO || header.packet_type == UDP_PACKET_ANNOUNCE;
        let entered = if carries {
            session_entered(noted, header.session_id, addr, now)
        } else {
            noted
        };
        let other_entered = if carries {
            session_entered(other_noted, header.session_id, addr, now)
        } else {
            other_noted
        };
        assert(same_progress(entered, other_entered));
        let every = config.drop_initial_frame_video_every;
        let ruled = initial_drop_applied(entered, every, header);
        let other_ruled = initial_drop_applied(other_entered, every, header);
        assert(same_progress(ruled, other_ruled));
        lemma_same_observed(ruled, other_ruled, header, config.quiet_frames, now);
        let seen = observed(ruled, header, config.quiet_frames, now);
        let other_seen = observed(other_ruled, header, config.quiet_frames, now);
        lemma_same_chunk(seen, other_seen, config, without, header, now);
    }
}

proof fn lemma_same_arrival(one: UdpModel, other: UdpModel, config: UdpServerConfig<String>, arrival: Arrival)
    requires
        same_progress(one, other),
        packet_noted(one, arrival.addr, arrival.now).counters.packets_total % config.drop_every != 0,
    ensures
        ({
            let without = UdpServerConfig { drop_every: 0, ..config };
            same_progress(arrival_taken(one, config, arrival), arrival_taken(other, without, arrival))
        }),
{
    reveal(arrival_taken);
    lemma_same_datagram(one, other, config, arrival);
}

proof fn lemma_dropped_arrival(one: UdpModel, other: UdpModel, config: UdpServerConfig<String>, arrival: Arrival)
    requires
        same_progress(one, other),
        config.drop_every != 0,
        packet_noted(one, arrival.addr, arrival.now).counters.packets_total % config.drop_every == 0,
    ensures
        same_progress(arrival_taken(one, config, arrival), other),
{
    reveal(arrival_taken);
}

/// Packets dropped by `drop_every` count as never received: over a whole run the
/// receiver makes the same progress as one without the rule that only gets the
/// other packets, so that it reports the same status; and a packet that is not
/// dropped, such as the one that ends the session, is answered in the same way.
#[verifier::rlimit(30)]
pub proof fn law_dropped_packets_count_as_never_received(
    config: UdpServerConfig<String>,
    start: u64,
    arrivals: Seq<Arrival>,
)
    requires
        config.drop_every != 0,
        config.nack_rounds == 0,
        arrivals.len() < u64::MAX,
    ensures
        ({
            let without = UdpServerConfig { drop_every: 0, ..config };
            let fresh = fresh_receiver(start);
            let one = arrivals_taken(fresh, config, arrivals);
            let other = arrivals_taken(fresh, without, surviving(arrivals, config.drop_every));
            &&& same_progress(one, other)
            &&& status_message(one) == status_message(other)
            &&& arrivals.len() > 0 && arrivals.len() % (config.drop_every as nat) != 0 ==> {
                let last = arrivals.last();
                let head = arrivals.drop_last();
                datagram_handled(arrivals_taken(fresh, config, head), config, last.data, last.addr, last.now).1
                    == datagram_handled(
                    arrivals_taken(fresh, without, surviving(head, config.drop_every)),
                    without,
                    last.data,
                    last.addr,
                    last.now,
                ).1
            }
        }),
    decreases arrivals.len(),
{
    let without = UdpServerConfig { drop_every: 0, ..config };
    let fresh = fresh_receiver(start);
    if arrivals.len() > 0 {
        let head = arrivals.drop_last();
        let last = arrivals.last();
        law_dropped_packets_count_as_never_received(config, start, head);
        lemma_packets_counted(config, start, head);
        let one = arrivals_taken(fresh, config, head);
        let other = arrivals_taken(fresh, without, surviving(head, config.drop_every));
        assert(packet_noted(one, last.addr, last.now).counters.packets_total == arrivals.len());
        if arrivals.len() % (config.drop_every as nat) != 0 {
            lemma_same_datagram(one, other, config, last);
            lemma_same_arrival(one, other, config, last);
            let kept = surviving(arrivals, config.drop_every);
            assert(kept.drop_last() =~= surviving(head, config.drop_every));
        } else {
            lemma_dropped_arrival(one, other, config, last);
        }
    }
}

/// Every datagram is counted.
proof fn lemma_packets_counted(config: UdpServerConfig<String>, start: u64, arrivals: Seq<Arrival>)
    requires
        arrivals.len() < u64::MAX,
    ensures
        arrivals_taken(fresh_receiver(start), config, arrivals).counters.packets_total == arrivals.len(),
    decreases arrivals.len(),
{
    if arrivals.len() > 0 {
        reveal(arrival_taken);
        let head = arrivals.drop_last();
        let last = arrivals.last();
        lemma_packets_counted(config, start, head);
        lemma_datagram_counts(
            arrivals_taken(fresh_receiver(start), config, head),
            config,
            last.data,
            last.addr,
            last.now,
        );
    }
}

proof fn lemma_range_keeps_counters(
    m: UdpModel,
    header: UdpVideoPacketHeader,
    from: int,
    to: int,
    quiet: bool,
    now: u64,
)
    ensures
        opened_range(m, header, from, to, quiet, now).0.counters == m.counters,
    decreases to - from,
{
    if from < to {
        lemma_range_keeps_counters(m, header, from, to - 1, quiet, now);
    }
}

#[verifier::rlimit(30)]
proof fn lemma_datagram_counts(
    m: UdpModel,
    config: UdpServerConfig<String>,
    data: Seq<u8>,
    addr: PeerAddr,
    now: u64,
)
    ensures
        datagram_handled(m, config, data, addr, now).0.counters.packets_total == saturating_sum(
            m.counters.packets_total as int,
            1,
        ),
{
    if let Ok(header) = decoded_udp_packet(data) {
        let noted = packet_noted(m, addr, now);
        let carries = header.packet_type == UDP_PACKET_VIDEO || header.packet_type == UDP_PACKET_ANNOUNCE;
        let entered = if carries {
            session_entered(noted, header.session_id, addr, now)
        } else {
            noted
        };
        let ruled = initial_drop_applied(entered, config.drop_initial_frame_video_every, header);
        if let Some(last) = ruled.last_observed {
            lemma_range_keeps_counters(
                ruled,
                header,
                last + 1,
                gap_end(last, header.frame_id),
                config.quiet_frames,
                now,
            );
        }
        let seen = observed(ruled, header, config.quiet_frames, now);
        assert(seen.counters.packets_total == noted.counters.packets_total);
    }
}

/// Every `drop_every`th packet is dropped: it changes the packet totals, the time
/// of the last packet, the peer and the log, and nothing else.
pub proof fn law_every_nth_packet_is_dropped(
    m: UdpModel,
    config: UdpServerConfig<String>,
    data: Seq<u8>,
    addr: PeerAddr,
    now: u64,
)
    requires
        config.drop_every != 0,
        m.counters.packets_total < u64::MAX,
        (m.counters.packets_total + 1) % (config.drop_every as int) == 0,
    ensures
        ({
            let (next, verdict) = datagram_handled(m, config, data, addr, now);
            &&& verdict is Ignored
            &&& next.frames == m.frames
            &&& next.completed == m.completed
            &&& next.drop_counts == m.drop_counts
            &&& next.session == m.session
            &&& next.last_observed == m.last_observed
            &&& next.last_status_at == m.last_status_at
            &&& next.last_packet_at == now
            &&& next.counters == drop_counted(packet_noted(m, addr, now)).counters
        }),
{
}

} // verus!
