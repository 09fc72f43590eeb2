//! What a datagram does to the UDP receiver.
use vstd::prelude::*;

use crate::netprobe::clock::has_elapsed;
use crate::netprobe::config::UdpServerConfig;
use crate::netprobe::frames::{
    lemma_count_bounds, lemma_sorted_lists, law_accept_chunk, sorted, FrameModel,
};
use crate::netprobe::udp_laws::{law_expiry, law_expiry_of_all, law_opened_range};
use crate::netprobe::udp_server::{
    can_open, datagram_handled, expired, expired_event, expired_ids, fresh_receiver, gap_end, gaps_opened,
    lemma_filter_of_listing, observed, opened, opened_range, packet_noted, read_timeout_due, remembered,
    serviced, session_entered, status_message, ExpireReason, OpenKind, PeerAddr, UdpEvent, UdpModel,
    Verdict,
};
use crate::netprobe::wire::{decoded_udp_packet, UdpVideoPacketHeader, WireError};

verus! {

/// Whether a datagram is a well-formed packet of the session that the receiver is
/// in, from the peer that it knows, and no packets are dropped on purpose.
pub open spec fn in_session(
    m: UdpModel,
    config: UdpServerConfig<String>,
    data: Seq<u8>,
    addr: PeerAddr,
    header: UdpVideoPacketHeader,
) -> bool {
    &&& config.drop_every == 0
    &&& config.drop_initial_frame_video_every == 0
    &&& decoded_udp_packet(data) == Ok::<UdpVideoPacketHeader, WireError>(header)
    &&& m.session == Some(header.session_id)
    &&& m.peer == Some(addr)
}

/// A chunk of an open frame that has the frame's shape is marked in the frame.
/// If it is the first of its kind its bytes count towards the frame, and if it
/// is the last one missing the frame is completed: it is closed, remembered with
/// the time, and counted. A second arrival counts as traffic alone.
#[verifier::rlimit(60)]
pub proof fn law_chunk_is_marked(
    m: UdpModel,
    config: UdpServerConfig<String>,
    data: Seq<u8>,
    addr: PeerAddr,
    now: u64,
    header: UdpVideoPacketHeader,
)
    requires
        m.wf(),
        in_session(m, config, data, addr, header),
        header.packet_type == 1,
        header.chunk_index < header.chunk_count,
        m.last_observed matches Some(last) && header.frame_id <= last,
        m.frames.contains_key(header.frame_id),
        m.frames[header.frame_id].chunk_count == header.chunk_count,
        m.frames[header.frame_id].frame_size == header.frame_size,
        m.frames[header.frame_id].bytes_seen + header.payload_len <= u32::MAX,
        m.counters.packets_total < u64::MAX,
        m.counters.chunks_total < u64::MAX,
        m.counters.bytes_total + header.payload_len <= u64::MAX,
        m.counters.frames_complete < u64::MAX,
        config.frame_timeout_ms > 0,
    ensures
        ({
            let (next, verdict) = datagram_handled(m, config, data, addr, now);
            let before = m.frames[header.frame_id];
            let index = header.chunk_index as int;
            let last_one = forall|i: int| 0 <= i < before.chunk_count && i != index ==> before.seen[i];
            let after = next.frames[header.frame_id];
            &&& verdict == Verdict::Service { session_id: header.session_id }
            &&& next.counters.packets_total == m.counters.packets_total + 1
            &&& next.counters.chunks_total == m.counters.chunks_total + 1
            &&& next.counters.bytes_total == m.counters.bytes_total + header.payload_len
            &&& next.counters.packets_dropped == m.counters.packets_dropped
            &&& next.counters.frames_expired == m.counters.frames_expired
            &&& next.last_packet_at == now
            &&& next.last_observed == m.last_observed
            &&& next.last_status_at == m.last_status_at
            &&& last_one ==> {
                &&& !next.frames.contains_key(header.frame_id)
                &&& next.completed.contains_key(header.frame_id)
                &&& next.completed[header.frame_id] == now
                &&& next.counters.frames_complete == m.counters.frames_complete + 1
            }
            &&& !last_one ==> {
                &&& next.frames.contains_key(header.frame_id)
                &&& after.seen.len() == before.seen.len()
                &&& after.seen[index]
                &&& forall|i: int| 0 <= i < before.chunk_count && i != index ==> after.seen[i] == before.seen[i]
                &&& after.bytes_seen == before.bytes_seen + if before.seen[index] {
                    0
                } else {
                    header.payload_len as int
                }
                &&& after.session_id == before.session_id
                &&& after.frame_size == before.frame_size
                &&& after.chunk_count == before.chunk_count
                &&& after.started == before.started
                &&& after.first_unix_us == before.first_unix_us
                &&& after.last_nack == before.last_nack
                &&& after.nack_rounds == before.nack_rounds
                &&& next.completed == m.completed
                &&& next.counters.frames_complete == m.counters.frames_complete
            }
        }),
{
    let frame = m.frames[header.frame_id];
    assert(frame.pending());
    law_accept_chunk(frame, header.chunk_index as int, header.payload_len);
    let taken = frame.accepted(header.chunk_index as int, header.payload_len);
    lemma_count_bounds(taken.seen);
    lemma_count_bounds(frame.seen);
    let last_one = forall|i: int|
        0 <= i < frame.chunk_count && i != header.chunk_index ==> frame.seen[i];
    if last_one {
        assert forall|i: int| 0 <= i < taken.seen.len() implies taken.seen[i] by {
            if i != header.chunk_index {
                assert(frame.seen[i]);
            }
        }
        assert(taken.complete());
    } else {
        let gap = choose|i: int|
            0 <= i < frame.chunk_count && i != header.chunk_index && !frame.seen[i];
        assert(!taken.seen[gap]);
        assert(!taken.complete());
    }
}

/// The first chunk of a frame opens it, in the shape that the chunk's header
/// gives, with the arrival as its start; nothing of it has been asked for.
#[verifier::rlimit(60)]
pub proof fn law_first_chunk_opens_its_frame(
    m: UdpModel,
    config: UdpServerConfig<String>,
    data: Seq<u8>,
    addr: PeerAddr,
    now: u64,
    header: UdpVideoPacketHeader,
)
    requires
        m.wf(),
        in_session(m, config, data, addr, header),
        header.packet_type == 1,
        header.chunk_index < header.chunk_count,
        header.chunk_count > 1,
        m.last_observed matches Some(last) && header.frame_id <= last + 1,
        !m.frames.contains_key(header.frame_id),
        !m.completed.contains_key(header.frame_id),
    ensures
        ({
            let (next, verdict) = datagram_handled(m, config, data, addr, now);
            let frame = next.frames[header.frame_id];
            &&& verdict == Verdict::Service { session_id: header.session_id }
            &&& next.frames.contains_key(header.frame_id)
            &&& frame.session_id == header.session_id
            &&& frame.frame_size == header.frame_size
            &&& frame.chunk_count == header.chunk_count
            &&& frame.first_unix_us == header.sent_unix_us
            &&& frame.started == now
            &&& frame.seen.len() == header.chunk_count
            &&& forall|i: int|
                0 <= i < header.chunk_count ==> (#[trigger] frame.seen[i] <==> i == header.chunk_index)
            &&& frame.bytes_seen == header.payload_len
            &&& frame.last_nack is None
            &&& frame.nack_rounds == 0
            &&& next.last_observed matches Some(last) && last == if m.last_observed->0
                < header.frame_id {
                header.frame_id
            } else {
                m.last_observed->0
            }
        }),
{
    let fresh = FrameModel::opened(
        header.session_id,
        header.frame_size,
        header.chunk_count,
        header.sent_unix_us,
        now,
    );
    law_accept_chunk(fresh, header.chunk_index as int, header.payload_len);
    let taken = fresh.accepted(header.chunk_index as int, header.payload_len);
    lemma_count_bounds(taken.seen);
    let gap = if header.chunk_index == 0 { 1int } else { 0int };
    assert(!fresh.seen[gap] && !taken.seen[gap]);
    assert(!taken.complete());
}

/// A frame of one chunk is complete as soon as that chunk is there.
pub proof fn law_single_chunk_completes_its_frame(
    m: UdpModel,
    config: UdpServerConfig<String>,
    data: Seq<u8>,
    addr: PeerAddr,
    now: u64,
    header: UdpVideoPacketHeader,
)
    requires
        m.wf(),
        in_session(m, config, data, addr, header),
        header.packet_type == 1,
        header.chunk_index == 0,
        header.chunk_count == 1,
        m.last_observed matches Some(last) && header.frame_id <= last + 1,
        !m.frames.contains_key(header.frame_id),
        !m.completed.contains_key(header.frame_id),
        m.counters.frames_complete < u64::MAX,
        config.frame_timeout_ms > 0,
    ensures
        ({
            let (next, verdict) = datagram_handled(m, config, data, addr, now);
            &&& verdict == Verdict::Service { session_id: header.session_id }
            &&& !next.frames.contains_key(header.frame_id)
            &&& next.completed.contains_key(header.frame_id)
            &&& next.counters.frames_complete == m.counters.frames_complete + 1
        }),
{
    let fresh = FrameModel::opened(
        header.session_id,
        header.frame_size,
        header.chunk_count,
        header.sent_unix_us,
        now,
    );
    let taken = fresh.accepted(0, header.payload_len);
    lemma_count_bounds(taken.seen);
    assert(taken.complete());
}

/// A chunk whose frame is open in another shape changes no frame.
pub proof fn law_misshapen_chunk_is_refused(
    m: UdpModel,
    config: UdpServerConfig<String>,
    data: Seq<u8>,
    addr: PeerAddr,
    now: u64,
    header: UdpVideoPacketHeader,
)
    requires
        in_session(m, config, data, addr, header),
        header.packet_type == 1,
        header.chunk_index < header.chunk_count,
        m.last_observed matches Some(last) && header.frame_id <= last,
        m.frames.contains_key(header.frame_id),
        !m.completed.contains_key(header.frame_id),
        m.frames[header.frame_id].chunk_count != header.chunk_count
            || m.frames[header.frame_id].frame_size != header.frame_size,
    ensures
        ({
            let (next, verdict) = datagram_handled(m, config, data, addr, now);
            &&& verdict is Ignored
            &&& next.frames == m.frames
            &&& next.completed == m.completed
            &&& next.counters.frames_complete == m.counters.frames_complete
        }),
{
}

/// A packet without chunks, or with a chunk number that its frame does not have,
/// changes no frame and no observed number.
pub proof fn law_impossible_chunk_is_refused(
    m: UdpModel,
    config: UdpServerConfig<String>,
    data: Seq<u8>,
    addr: PeerAddr,
    now: u64,
    header: UdpVideoPacketHeader,
)
    requires
        in_session(m, config, data, addr, header),
        header.packet_type == 1 || header.packet_type == 4,
        header.chunk_index >= header.chunk_count,
    ensures
        ({
            let (next, verdict) = datagram_handled(m, config, data, addr, now);
            &&& verdict is Ignored
            &&& next.frames == m.frames
            &&& next.completed == m.completed
            &&& next.last_observed == m.last_observed
            &&& next.counters.chunks_total == m.counters.chunks_total
            &&& next.counters.announce_packets_total == m.counters.announce_packets_total
        }),
{
}

/// Bytes that are no packet, and requests, count as a packet and change nothing
/// else but the log, the time of the last packet and a peer not known before.
pub proof fn law_other_datagrams_change_nothing(
    m: UdpModel,
    config: UdpServerConfig<String>,
    data: Seq<u8>,
    addr: PeerAddr,
    now: u64,
)
    requires
        config.drop_every == 0,
        m.counters.packets_total < u64::MAX,
        decoded_udp_packet(data) matches Ok(header) ==> header.packet_type == 3,
    ensures
        ({
            let (next, verdict) = datagram_handled(m, config, data, addr, now);
            &&& verdict is Ignored
            &&& next.frames == m.frames
            &&& next.completed == m.completed
            &&& next.drop_counts == m.drop_counts
            &&& next.session == m.session
            &&& next.last_observed == m.last_observed
            &&& next.last_status_at == m.last_status_at
            &&& next.last_packet_at == now
            &&& next.peer == if m.peer is Some {
                m.peer
            } else {
                Some(addr)
            }
            &&& next.counters.packets_total == m.counters.packets_total + 1
            &&& next.counters.chunks_total == m.counters.chunks_total
            &&& next.counters.bytes_total == m.counters.bytes_total
            &&& next.counters.packets_dropped == m.counters.packets_dropped
        }),
{
}

/// A bye gives up all open frames and ends the run; the last report is for the
/// session that the receiver is in, or else for that of the bye.
pub proof fn law_bye_ends_the_run(
    m: UdpModel,
    config: UdpServerConfig<String>,
    data: Seq<u8>,
    addr: PeerAddr,
    now: u64,
    header: UdpVideoPacketHeader,
)
    requires
        m.wf(),
        m.has_room(),
        config.drop_every == 0,
        decoded_udp_packet(data) == Ok::<UdpVideoPacketHeader, WireError>(header),
        header.packet_type == 2,
    ensures
        ({
            let (next, verdict) = datagram_handled(m, config, data, addr, now);
            &&& verdict matches Verdict::Finished { report_session } && report_session
                == if config.status_interval_ms == 0 {
                None
            } else if m.session is Some {
                m.session
            } else {
                Some(header.session_id)
            }
            &&& next.frames == Map::<u64, FrameModel>::empty()
            &&& next.counters.frames_expired == m.counters.frames_expired + m.frames.dom().len()
            &&& next.counters.frames_complete == m.counters.frames_complete
            &&& next.completed == m.completed
            &&& next.log.len() >= m.log.len() + m.frames.dom().len()
        }),
{
    let noted = packet_noted(m, addr, now);
    assert(noted.wf() && noted.has_room());
    law_expiry_of_all(noted, ExpireReason::Bye, now);
    lemma_expired_log(noted, ExpireReason::Bye, now, 0);
}

proof fn lemma_expired_log(m: UdpModel, reason: ExpireReason, now: u64, timeout_ms: u64)
    requires
        m.wf(),
        m.has_room(),
    ensures
        ({
            let next = expired(m, reason, now, timeout_ms);
            &&& next.log.len() == m.log.len() + m.frames.dom().len() - next.frames.dom().len()
            &&& next.log.take(m.log.len() as int) == m.log
        }),
{
    let due = |id: u64| has_elapsed(m.frames[id].started, now, timeout_ms);
    lemma_sorted_lists(m.frames.dom());
    lemma_filter_of_listing(sorted(m.frames.dom()), m.frames.dom(), due);
    let ids = expired_ids(m.frames, now, timeout_ms);
    let next = expired(m, reason, now, timeout_ms);
    law_expiry(m, reason, now, timeout_ms);
    assert(next.log.take(m.log.len() as int) =~= m.log);
    ids.unique_seq_to_set();
    let kept = next.frames.dom();
    assert(m.frames.dom().difference(ids.to_set()) =~= kept);
    vstd::set_lib::lemma_len_difference(m.frames.dom(), ids.to_set());
    assert(ids.to_set().len() == ids.len());
    assert(m.counters.frames_expired + ids.len() <= u64::MAX) by {
        vstd::set_lib::lemma_len_subset(ids.to_set(), m.frames.dom());
    }
}

/// An open frame is given up exactly if it has been open for the timeout, in
/// nanoseconds a million times the milliseconds; one event is logged for each,
/// with what had arrived of it and how long it was open.
#[verifier::rlimit(60)]
pub proof fn law_frame_is_given_up_when_overdue(
    m: UdpModel,
    reason: ExpireReason,
    now: u64,
    timeout_ms: u64,
    frame_id: u64,
)
    requires
        m.wf(),
        m.has_room(),
        m.frames.contains_key(frame_id),
    ensures
        ({
            let next = expired(m, reason, now, timeout_ms);
            let frame = m.frames[frame_id];
            let overdue = timeout_ms == 0 || now - frame.started >= timeout_ms * 1_000_000;
            &&& next.frames.contains_key(frame_id) <==> !overdue
            &&& next.log.len() == m.log.len() + m.frames.dom().len() - next.frames.dom().len()
            &&& next.log.take(m.log.len() as int) == m.log
            &&& overdue ==> exists|k: int|
                m.log.len() <= k < next.log.len() && (#[trigger] next.log[k] matches UdpEvent::FrameExpired {
                    reason: given,
                    frame_id: id,
                    chunks_seen,
                    chunk_count,
                    missing_chunks,
                    bytes_seen,
                    frame_size,
                    elapsed_us,
                } && given == reason && id == frame_id && chunks_seen == frame.chunks_seen()
                    && chunk_count == frame.chunk_count && chunks_seen + missing_chunks
                    == frame.chunk_count && bytes_seen == frame.bytes_seen && frame_size
                    == frame.frame_size && (now >= frame.started ==> 1_000 * elapsed_us <= now
                    - frame.started < 1_000 * elapsed_us + 1_000))
        }),
{
    let due = |id: u64| has_elapsed(m.frames[id].started, now, timeout_ms);
    lemma_sorted_lists(m.frames.dom());
    lemma_filter_of_listing(sorted(m.frames.dom()), m.frames.dom(), due);
    law_expiry(m, reason, now, timeout_ms);
    lemma_expired_log(m, reason, now, timeout_ms);
    let ids = expired_ids(m.frames, now, timeout_ms);
    let next = expired(m, reason, now, timeout_ms);
    let frame = m.frames[frame_id];
    assert(frame.pending());
    if due(frame_id) {
        assert(m.frames.dom().filter(due).contains(frame_id));
        assert(ids.to_set().contains(frame_id));
        let i = choose|i: int| 0 <= i < ids.len() && ids[i] == frame_id;
        let k = m.log.len() + i;
        assert(next.log[k] == expired_event(reason, frame_id, frame, now));
    }
}

// ---------------------------------------------------------------------------
// Sessions
// ---------------------------------------------------------------------------

/// The first packet of another session ends the one before: its open frames are
/// given up and counted, and what was completed, dropped and observed of it is
/// forgotten. The receiver is then in the new session, with the packet's sender.
pub proof fn law_new_session_replaces_the_old(m: UdpModel, session_id: u64, addr: PeerAddr, now: u64)
    requires
        m.wf(),
        m.has_room(),
        m.session matches Some(old_session) && old_session != session_id,
    ensures
        ({
            let next = session_entered(m, session_id, addr, now);
            &&& next.session == Some(session_id)
            &&& next.peer == Some(addr)
            &&& next.frames == Map::<u64, FrameModel>::empty()
            &&& next.completed == Map::<u64, u64>::empty()
            &&& next.drop_counts == Map::<u64, u32>::empty()
            &&& next.last_observed is None
            &&& next.counters.frames_expired == m.counters.frames_expired + m.frames.dom().len()
            &&& next.counters.frames_complete == m.counters.frames_complete
            &&& next.counters.chunks_total == m.counters.chunks_total
            &&& next.log.len() == m.log.len() + m.frames.dom().len() + 1
            &&& next.log.last() == (UdpEvent::Session { addr, session_id })
        }),
{
    law_expiry_of_all(m, ExpireReason::SessionReplaced, now);
    lemma_expired_log(m, ExpireReason::SessionReplaced, now, 0);
    assert(Map::<u64, FrameModel>::empty().dom() =~= Set::empty());
}

/// The first session that is heard of gives up nothing; a packet of the session
/// from another address moves the peer there and changes nothing else.
pub proof fn law_session_follows_its_sender(m: UdpModel, session_id: u64, addr: PeerAddr, now: u64)
    requires
        m.session is None || m.session == Some(session_id),
    ensures
        ({
            let next = session_entered(m, session_id, addr, now);
            &&& next.session == Some(session_id)
            &&& next.peer == Some(addr)
            &&& next.frames == m.frames
            &&& next.completed == m.completed
            &&& next.drop_counts == m.drop_counts
            &&& next.last_observed == m.last_observed
            &&& next.counters == m.counters
            &&& next.log.len() == m.log.len() + if m.session is Some && m.peer == Some(addr) {
                0int
            } else {
                1int
            }
        }),
{
}

/// Video and announcement packets of another session are taken in that session:
/// nothing of the old one is left but the totals.
#[verifier::rlimit(60)]
pub proof fn law_packet_of_another_session_starts_over(
    m: UdpModel,
    config: UdpServerConfig<String>,
    data: Seq<u8>,
    addr: PeerAddr,
    now: u64,
    header: UdpVideoPacketHeader,
    other: u64,
)
    requires
        m.wf(),
        m.has_room(),
        config.drop_every == 0,
        config.drop_initial_frame_video_every == 0,
        decoded_udp_packet(data) == Ok::<UdpVideoPacketHeader, WireError>(header),
        header.packet_type == 1 || header.packet_type == 4,
        header.chunk_index < header.chunk_count,
        m.session matches Some(old_session) && old_session != header.session_id,
        other != header.frame_id,
    ensures
        ({
            let (next, verdict) = datagram_handled(m, config, data, addr, now);
            &&& verdict == Verdict::Service { session_id: header.session_id }
            &&& next.session == Some(header.session_id)
            &&& next.peer == Some(addr)
            &&& next.last_observed == Some(header.frame_id)
            &&& !next.frames.contains_key(other)
            &&& !next.completed.contains_key(other)
            &&& header.packet_type == 4 ==> next.frames.contains_key(header.frame_id)
            &&& next.counters.frames_expired == m.counters.frames_expired + m.frames.dom().len()
        }),
{
    let noted = packet_noted(m, addr, now);
    assert(noted.wf() && noted.has_room());
    law_new_session_replaces_the_old(noted, header.session_id, addr, now);
    let entered = session_entered(noted, header.session_id, addr, now);
    assert(entered.frames == Map::<u64, FrameModel>::empty());
    assert(observed(entered, header, config.quiet_frames, now).last_observed == Some(header.frame_id));
}

// ---------------------------------------------------------------------------
// Frame numbers
// ---------------------------------------------------------------------------

/// Opening a range counts the frames that it opened.
proof fn lemma_range_count(
    m: UdpModel,
    header: UdpVideoPacketHeader,
    from: int,
    to: int,
    quiet: bool,
    now: u64,
)
    requires
        0 <= from <= to <= u64::MAX + 1,
        m.frames.dom().finite(),
    ensures
        ({
            let (next, count) = opened_range(m, header, from, to, quiet, now);
            &&& next.frames.dom().finite()
            &&& count == next.frames.dom().len() - m.frames.dom().len()
            &&& count <= to - from
            &&& next.log.len() == m.log.len() + if quiet {
                0
            } else {
                count as int
            }
        }),
    decreases to - from,
{
    if from < to {
        lemma_range_count(m, header, from, to - 1, quiet, now);
        let (before, count) = opened_range(m, header, from, to - 1, quiet, now);
        let gap = UdpVideoPacketHeader { frame_id: (to - 1) as u64, chunk_index: 0, ..header };
        if can_open(before, gap.frame_id) {
            let next = opened(before, gap, OpenKind::Gap, quiet, now);
            assert(next.frames.dom() =~= before.frames.dom().insert(gap.frame_id));
        }
    }
}

/// The largest frame number of the session has been observed. Each frame that was
/// jumped over is open afterwards unless it is completed, as far as the limit of
/// 120 goes, in the shape of the packet's frame and with nothing arrived; the
/// frames so opened are counted.
#[verifier::rlimit(60)]
pub proof fn law_jump_opens_what_was_skipped(
    m: UdpModel,
    header: UdpVideoPacketHeader,
    quiet: bool,
    now: u64,
    last: u64,
    skipped: u64,
)
    requires
        m.frames.dom().finite(),
        m.last_observed == Some(last),
        m.counters.synthetic_frames_opened + 120 <= u64::MAX,
    ensures
        ({
            let next = observed(m, header, quiet, now);
            let frame = next.frames[skipped];
            &&& next.last_observed == Some(
                if header.frame_id > last {
                    header.frame_id
                } else {
                    last
                },
            )
            &&& next.frames.contains_key(skipped) <==> m.frames.contains_key(skipped) || (last < skipped
                < header.frame_id && skipped <= last + 120 && !m.completed.contains_key(skipped))
            &&& m.frames.contains_key(skipped) ==> frame == m.frames[skipped]
            &&& next.frames.contains_key(skipped) && !m.frames.contains_key(skipped) ==> {
                &&& frame.session_id == header.session_id
                &&& frame.frame_size == header.frame_size
                &&& frame.chunk_count == header.chunk_count
                &&& frame.first_unix_us == header.sent_unix_us
                &&& frame.started == now
                &&& frame.seen.len() == header.chunk_count
                &&& forall|i: int| 0 <= i < header.chunk_count ==> !(#[trigger] frame.seen[i])
                &&& frame.bytes_seen == 0
                &&& frame.nack_rounds == 0
                &&& frame.last_nack is None
            }
            &&& next.counters.synthetic_frames_opened == m.counters.synthetic_frames_opened
                + next.frames.dom().len() - m.frames.dom().len()
            &&& next.counters.frames_complete == m.counters.frames_complete
            &&& next.completed == m.completed
            &&& next.session == m.session
        }),
{
    if header.frame_id > last + 1 {
        let end = gap_end(last, header.frame_id);
        law_opened_range(m, header, last + 1, end, quiet, now);
        lemma_range_count(m, header, last + 1, end, quiet, now);
        let next = gaps_opened(m, header, last, quiet, now);
        assert(next.frames == opened_range(m, header, last + 1, end, quiet, now).0.frames);
    }
}

/// The first packet of a session sets the number that has been observed and opens
/// no frames before its own.
pub proof fn law_first_number_opens_nothing(m: UdpModel, header: UdpVideoPacketHeader, quiet: bool, now: u64)
    requires
        m.last_observed is None,
    ensures
        observed(m, header, quiet, now).last_observed == Some(header.frame_id),
        observed(m, header, quiet, now).frames == m.frames,
        observed(m, header, quiet, now).counters == m.counters,
{
}

/// An announcement opens its frame with nothing arrived and is counted; it leaves
/// a frame that is open or completed as it is.
#[verifier::rlimit(60)]
pub proof fn law_announcement_opens_its_frame(
    m: UdpModel,
    config: UdpServerConfig<String>,
    data: Seq<u8>,
    addr: PeerAddr,
    now: u64,
    header: UdpVideoPacketHeader,
)
    requires
        in_session(m, config, data, addr, header),
        header.packet_type == 4,
        header.chunk_index < header.chunk_count,
        m.last_observed matches Some(last) && header.frame_id <= last + 1,
        m.counters.announce_packets_total < u64::MAX,
    ensures
        ({
            let (next, verdict) = datagram_handled(m, config, data, addr, now);
            let frame = next.frames[header.frame_id];
            &&& verdict == Verdict::Service { session_id: header.session_id }
            &&& next.counters.announce_packets_total == m.counters.announce_packets_total + 1
            &&& next.counters.chunks_total == m.counters.chunks_total
            &&& next.counters.bytes_total == m.counters.bytes_total
            &&& next.completed == m.completed
            &&& m.frames.contains_key(header.frame_id) || m.completed.contains_key(header.frame_id)
                ==> next.frames == m.frames
            &&& !m.frames.contains_key(header.frame_id) && !m.completed.contains_key(header.frame_id) ==> {
                &&& next.frames == m.frames.insert(header.frame_id, frame)
                &&& frame.chunk_count == header.chunk_count
                &&& frame.frame_size == header.frame_size
                &&& frame.session_id == header.session_id
                &&& frame.first_unix_us == header.sent_unix_us
                &&& frame.started == now
                &&& frame.bytes_seen == 0
                &&& frame.seen.len() == header.chunk_count
                &&& forall|i: int| 0 <= i < header.chunk_count ==> !(#[trigger] frame.seen[i])
            }
        }),
{
}

// ---------------------------------------------------------------------------
// Time
// ---------------------------------------------------------------------------

/// A completed frame is remembered until the time given has passed, and no
/// longer.
pub proof fn law_completed_frames_are_remembered(
    completed: Map<u64, u64>,
    now: u64,
    retention_ms: u64,
    frame_id: u64,
)
    ensures
        remembered(completed, now, retention_ms).contains_key(frame_id) <==> completed.contains_key(frame_id)
            && retention_ms > 0 && now - completed[frame_id] < retention_ms * 1_000_000,
        remembered(completed, now, retention_ms).contains_key(frame_id) ==> remembered(
            completed,
            now,
            retention_ms,
        )[frame_id] == completed[frame_id],
{
}

/// When a frame is completed, those completed twice the frame timeout ago or
/// earlier are forgotten.
pub proof fn law_completion_forgets_old_frames(
    m: UdpModel,
    config: UdpServerConfig<String>,
    data: Seq<u8>,
    addr: PeerAddr,
    now: u64,
    header: UdpVideoPacketHeader,
    other: u64,
)
    requires
        m.wf(),
        in_session(m, config, data, addr, header),
        header.packet_type == 1,
        header.chunk_index == 0,
        header.chunk_count == 1,
        m.last_observed matches Some(last) && header.frame_id <= last + 1,
        !m.frames.contains_key(header.frame_id),
        !m.completed.contains_key(header.frame_id),
        other != header.frame_id,
        config.frame_timeout_ms > 0,
        config.frame_timeout_ms * 2 <= u64::MAX,
    ensures
        datagram_handled(m, config, data, addr, now).0.completed.contains_key(other)
            <==> m.completed.contains_key(other) && now - m.completed[other] < config.frame_timeout_ms
            * 2_000_000,
{
    let fresh = FrameModel::opened(
        header.session_id,
        header.frame_size,
        header.chunk_count,
        header.sent_unix_us,
        now,
    );
    let taken = fresh.accepted(0, header.payload_len);
    lemma_count_bounds(taken.seen);
    assert(taken.complete());
}

/// Tending to the receiver gives up the frames that have been open for the frame
/// timeout. A report goes out exactly if the peer and the session are known,
/// reports are on and the interval has passed since the last one; then the
/// interval starts anew.
#[verifier::rlimit(60)]
pub proof fn law_receiver_is_tended(
    m: UdpModel,
    config: UdpServerConfig<String>,
    session_id: Option<u64>,
    now: u64,
    frame_id: u64,
)
    requires
        m.wf(),
        m.has_room(),
    ensures
        ({
            let (next, report) = serviced(m, config, session_id, now);
            &&& report <==> m.peer is Some && session_id is Some && config.status_interval_ms > 0 && now
                - m.last_status_at >= config.status_interval_ms * 1_000_000
            &&& next.last_status_at == if report {
                now
            } else {
                m.last_status_at
            }
            &&& next.frames.contains_key(frame_id) <==> m.frames.contains_key(frame_id)
                && config.frame_timeout_ms > 0 && now - m.frames[frame_id].started
                < config.frame_timeout_ms * 1_000_000
            &&& next.frames.contains_key(frame_id) ==> next.frames[frame_id] == m.frames[frame_id]
            &&& next.counters.frames_expired == m.counters.frames_expired + m.frames.dom().len()
                - next.frames.dom().len()
            &&& next.completed == m.completed
            &&& next.session == m.session
            &&& next.peer == m.peer
        }),
{
    law_expiry(m, ExpireReason::FrameTimeout, now, config.frame_timeout_ms);
}

/// The receiver stops waiting exactly if there is a read timeout and nothing has
/// arrived for so long.
pub proof fn law_read_timeout(m: UdpModel, read_timeout_ms: u64, now: u64)
    ensures
        read_timeout_due(m, read_timeout_ms, now) <==> read_timeout_ms > 0 && now - m.last_packet_at
            >= read_timeout_ms * 1_000_000,
{
}

/// A report names the largest frame number observed, or all ones where there is
/// none, the frames completed, given up and open, and the chunks and
/// announcements counted.
pub proof fn law_report_holds_the_progress(m: UdpModel)
    requires
        m.frames.dom().len() <= u32::MAX,
    ensures
        ({
            let report = status_message(m);
            &&& m.last_observed matches Some(last) ==> report.last_observed_frame_id == last
            &&& m.last_observed is None ==> report.last_observed_frame_id == 0xffff_ffff_ffff_ffff
            &&& report.frames_complete == m.counters.frames_complete
            &&& report.frames_skipped == m.counters.frames_expired
            &&& report.open_frames == m.frames.dom().len()
            &&& report.chunks_total == m.counters.chunks_total
            &&& report.announce_packets_total == m.counters.announce_packets_total
        }),
{
}

// ---------------------------------------------------------------------------
// Drops and late chunks
// ---------------------------------------------------------------------------

/// A chunk of a completed frame is counted with its bytes and changes nothing
/// else.
pub proof fn law_late_chunk_is_counted(
    m: UdpModel,
    config: UdpServerConfig<String>,
    data: Seq<u8>,
    addr: PeerAddr,
    now: u64,
    header: UdpVideoPacketHeader,
)
    requires
        in_session(m, config, data, addr, header),
        header.packet_type == 1,
        header.chunk_index < header.chunk_count,
        m.last_observed matches Some(last) && header.frame_id <= last,
        m.completed.contains_key(header.frame_id),
        m.counters.chunks_total < u64::MAX,
        m.counters.bytes_total + header.payload_len <= u64::MAX,
    ensures
        ({
            let (next, verdict) = datagram_handled(m, config, data, addr, now);
            &&& verdict is Ignored
            &&& next.frames == m.frames
            &&& next.completed == m.completed
            &&& next.counters.chunks_total == m.counters.chunks_total + 1
            &&& next.counters.bytes_total == m.counters.bytes_total + header.payload_len
            &&& next.counters.frames_complete == m.counters.frames_complete
        }),
{
}

/// A video packet that is dropped on purpose as one of the first of its frame is
/// counted as dropped and for its frame, and leaves frames and chunk totals as
/// they are.
pub proof fn law_initial_drop_changes_no_frame(
    m: UdpModel,
    config: UdpServerConfig<String>,
    data: Seq<u8>,
    addr: PeerAddr,
    now: u64,
    header: UdpVideoPacketHeader,
    dropped: u32,
)
    requires
        config.drop_every == 0,
        config.drop_initial_frame_video_every > 0,
        decoded_udp_packet(data) == Ok::<UdpVideoPacketHeader, WireError>(header),
        m.session == Some(header.session_id),
        m.peer == Some(addr),
        header.packet_type == 1,
        header.frame_id as int % config.drop_initial_frame_video_every as int == 0,
        dropped == if m.drop_counts.contains_key(header.frame_id) {
            m.drop_counts[header.frame_id]
        } else {
            0
        },
        m.counters.packets_dropped < u64::MAX,
    ensures
        ({
            let (next, verdict) = datagram_handled(m, config, data, addr, now);
            dropped < header.chunk_count ==> {
                &&& verdict is Ignored
                &&& next.frames == m.frames
                &&& next.completed == m.completed
                &&& next.last_observed == m.last_observed
                &&& next.counters.packets_dropped == m.counters.packets_dropped + 1
                &&& next.counters.chunks_total == m.counters.chunks_total
                &&& next.drop_counts.contains_key(header.frame_id)
                &&& next.drop_counts[header.frame_id] == dropped + 1
            }
        }),
{
}

/// A frame that is completed is reported once, with its chunks and bytes, the
/// time of its first packet and how long it was open, unless frames are quiet.
#[verifier::rlimit(60)]
pub proof fn law_completion_is_reported(
    m: UdpModel,
    config: UdpServerConfig<String>,
    data: Seq<u8>,
    addr: PeerAddr,
    now: u64,
    header: UdpVideoPacketHeader,
)
    requires
        m.wf(),
        in_session(m, config, data, addr, header),
        header.packet_type == 1,
        header.chunk_index < header.chunk_count,
        m.last_observed matches Some(last) && header.frame_id <= last,
        m.frames.contains_key(header.frame_id),
        m.frames[header.frame_id].chunk_count == header.chunk_count,
        m.frames[header.frame_id].frame_size == header.frame_size,
        m.frames[header.frame_id].bytes_seen + header.payload_len <= u32::MAX,
        !m.frames[header.frame_id].seen[header.chunk_index as int],
        !config.quiet_frames,
        forall|i: int|
            0 <= i < header.chunk_count && i != header.chunk_index
                ==> #[trigger] m.frames[header.frame_id].seen[i],
    ensures
        ({
            let next = datagram_handled(m, config, data, addr, now).0;
            let frame = m.frames[header.frame_id];
            &&& next.log.len() > m.log.len()
            &&& next.log.last() matches UdpEvent::FrameComplete {
                frame_id,
                chunks_seen,
                chunk_count,
                bytes_seen,
                sender_first_unix_us,
                elapsed_us,
            } && frame_id == header.frame_id && chunks_seen == frame.chunk_count && chunk_count
                == frame.chunk_count && bytes_seen == frame.bytes_seen + header.payload_len
                && sender_first_unix_us == frame.first_unix_us && (now >= frame.started ==> 1_000
                * elapsed_us <= now - frame.started < 1_000 * elapsed_us + 1_000)
        }),
{
    let frame = m.frames[header.frame_id];
    assert(frame.pending());
    law_accept_chunk(frame, header.chunk_index as int, header.payload_len);
    let taken = frame.accepted(header.chunk_index as int, header.payload_len);
    lemma_count_bounds(taken.seen);
    assert forall|i: int| 0 <= i < taken.seen.len() implies taken.seen[i] by {
        if i != header.chunk_index {
            assert(frame.seen[i]);
        }
    }
    assert(taken.complete());
}

// ---------------------------------------------------------------------------
// The first packet
// ---------------------------------------------------------------------------

/// The first packet that a receiver hears starts its session: the receiver knows
/// the sender, the session and the frame number, and has that frame alone, with
/// the packet's chunk if it carried one.
#[verifier::rlimit(60)]
pub proof fn law_first_packet_starts_the_session(
    start: u64,
    config: UdpServerConfig<String>,
    data: Seq<u8>,
    addr: PeerAddr,
    now: u64,
    header: UdpVideoPacketHeader,
    other: u64,
)
    requires
        config.drop_every == 0,
        config.drop_initial_frame_video_every == 0,
        config.frame_timeout_ms > 0,
        decoded_udp_packet(data) == Ok::<UdpVideoPacketHeader, WireError>(header),
        header.packet_type == 1 || header.packet_type == 4,
        header.chunk_index < header.chunk_count,
        other != header.frame_id,
    ensures
        ({
            let (next, verdict) = datagram_handled(fresh_receiver(start), config, data, addr, now);
            let frame = next.frames[header.frame_id];
            let whole = header.packet_type == 1 && header.chunk_count == 1;
            &&& verdict == Verdict::Service { session_id: header.session_id }
            &&& next.session == Some(header.session_id)
            &&& next.peer == Some(addr)
            &&& next.last_observed == Some(header.frame_id)
            &&& next.counters.packets_total == 1
            &&& next.counters.chunks_total == if header.packet_type == 1 { 1int } else { 0int }
            &&& next.counters.announce_packets_total == if header.packet_type == 4 { 1int } else { 0int }
            &&& next.counters.frames_complete == if whole { 1int } else { 0int }
            &&& !next.frames.contains_key(other)
            &&& next.frames.contains_key(header.frame_id) <==> !whole
            &&& next.completed.contains_key(header.frame_id) <==> whole
            &&& !whole ==> frame.started == now && frame.chunk_count == header.chunk_count && forall|i: int|
                0 <= i < header.chunk_count ==> (#[trigger] frame.seen[i] <==> header.packet_type == 1 && i
                    == header.chunk_index)
        }),
{
    let fresh = FrameModel::opened(
        header.session_id,
        header.frame_size,
        header.chunk_count,
        header.sent_unix_us,
        now,
    );
    law_accept_chunk(fresh, header.chunk_index as int, header.payload_len);
    let taken = fresh.accepted(header.chunk_index as int, header.payload_len);
    lemma_count_bounds(taken.seen);
    if header.chunk_count > 1 {
        let gap = if header.chunk_index == 0 { 1int } else { 0int };
        assert(!fresh.seen[gap] && !taken.seen[gap]);
        assert(!taken.complete());
    } else {
        assert(taken.complete());
    }
}

} // verus!
