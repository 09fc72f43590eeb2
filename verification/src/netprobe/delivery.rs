//! What holds of a frame on its way from the UDP sender to the UDP receiver.
use vstd::prelude::*;

use crate::netprobe::clock::{has_elapsed, saturating_product};
use crate::netprobe::config::{udp_server_fault, UdpServerConfig};
use crate::netprobe::frames::{law_accept_chunk, lemma_count_bounds, FrameModel};
use crate::netprobe::udp_client::{
    control_handled, law_resent_packets, lemma_chunk_count, nack_counted, UdpSenderModel,
};
use crate::netprobe::udp_laws::{
    law_datagram_keeps_invariant, law_gaps_bounded, law_opened_range, law_request_indexes_round_trip,
    law_request_names_missing_chunks, lemma_index_bytes_len,
};
use crate::netprobe::udp_server::{
    chunk_handled, datagram_handled, gap_end, index_bytes, initial_drop_applied, nack_for, nack_header,
    observed, packet_noted, remembered, requested_chunks, session_entered, PeerAddr, UdpModel,
};
use crate::netprobe::wire::{
    chunk_len, decoded_udp_packet, law_chunks_cover_frame, law_udp_packet_round_trip, payload_bytes,
    UdpVideoPacketHeader, WireError, UDP_PACKET_VIDEO,
};

verus! {

/// The chunks of a frame that the receiver has, one mark per chunk.
pub open spec fn chunk_marks(m: UdpModel, frame_id: u64, count: nat) -> Seq<bool> {
    if m.frames.contains_key(frame_id) {
        m.frames[frame_id].seen
    } else {
        Seq::new(count, |i: int| false)
    }
}

/// Whether every mark is set.
pub open spec fn all_set(marks: Seq<bool>) -> bool {
    forall|i: int| 0 <= i < marks.len() ==> marks[i]
}

/// Whether the frame, if it is open, has the shape that the sender gives it.
pub open spec fn in_shape(s: UdpSenderModel, m: UdpModel, frame_id: u64) -> bool {
    m.frames.contains_key(frame_id) ==> {
        &&& m.frames[frame_id].chunk_count == s.chunk_count()
        &&& m.frames[frame_id].frame_size == s.frame_size
    }
}

/// Whether no packet is dropped on purpose.
pub open spec fn lossless(config: UdpServerConfig<String>) -> bool {
    config.drop_every == 0 && config.drop_initial_frame_video_every == 0
}

/// The receiver after packets have arrived, each at its time.
pub open spec fn delivered(
    m: UdpModel,
    config: UdpServerConfig<String>,
    packets: Seq<Seq<u8>>,
    addr: PeerAddr,
    times: Seq<u64>,
) -> UdpModel
    decreases packets.len(),
{
    if packets.len() == 0 {
        m
    } else {
        datagram_handled(
            delivered(m, config, packets.drop_last(), addr, times),
            config,
            packets.last(),
            addr,
            times[packets.len() - 1],
        ).0
    }
}

/// A video packet of the sender is read as the header that the sender wrote.
proof fn lemma_video_packet(s: UdpSenderModel, packet: Seq<u8>, frame_id: u64, index: u32) -> (header:
    UdpVideoPacketHeader)
    requires
        s.wf(),
        index < s.chunk_count(),
        s.is_video_packet(packet, frame_id, index),
    ensures
        decoded_udp_packet(packet) == Ok::<UdpVideoPacketHeader, WireError>(header),
        header.packet_type == UDP_PACKET_VIDEO,
        header.session_id == s.session_id,
        header.frame_id == frame_id,
        header.chunk_index == index,
        header.chunk_count == s.chunk_count(),
        header.frame_size == s.frame_size,
{
    let unix_us = choose|unix_us: u64| packet == #[trigger] s.video_packet(frame_id, index, unix_us);
    let header = s.video_header(frame_id, index, unix_us);
    lemma_chunk_count(s);
    law_chunks_cover_frame(s.frame_size as int, s.payload_size as int);
    assert(0 < chunk_len(s.frame_size as int, s.payload_size as int, index as int) <= s.payload_size);
    law_udp_packet_round_trip(header, payload_bytes(frame_id, index, header.payload_len as nat));
    header
}

/// Observing a frame number leaves the frame itself as it is.
proof fn lemma_observed(m: UdpModel, header: UdpVideoPacketHeader, quiet: bool, now: u64)
    ensures
        ({
            let next = observed(m, header, quiet, now);
            &&& next.frames.contains_key(header.frame_id) == m.frames.contains_key(header.frame_id)
            &&& m.frames.contains_key(header.frame_id) ==> next.frames[header.frame_id]
                == m.frames[header.frame_id]
            &&& next.completed == m.completed
            &&& next.session == m.session
            &&& next.counters.frames_complete == m.counters.frames_complete
        }),
{
    if let Some(last) = m.last_observed {
        law_gaps_bounded(m, header, last, quiet, now);
        if header.frame_id > last + 1 {
            law_opened_range(m, header, last + 1, gap_end(last, header.frame_id), quiet, now);
        }
    }
}

/// One video packet: the chunk is marked, and the frame is completed if it was
/// the last one.
proof fn lemma_packet_delivered(
    s: UdpSenderModel,
    m: UdpModel,
    config: UdpServerConfig<String>,
    frame_id: u64,
    packet: Seq<u8>,
    index: u32,
    addr: PeerAddr,
    now: u64,
)
    requires
        s.wf(),
        m.wf(),
        m.session == Some(s.session_id),
        lossless(config),
        udp_server_fault(config) is None,
        !m.completed.contains_key(frame_id) ==> m.counters.frames_complete < u64::MAX,
        in_shape(s, m, frame_id),
        index < s.chunk_count(),
        s.is_video_packet(packet, frame_id, index),
    ensures
        ({
            let next = datagram_handled(m, config, packet, addr, now).0;
            let marks = chunk_marks(m, frame_id, s.chunk_count() as nat).update(index as int, true);
            &&& next.wf()
            &&& next.session == m.session
            &&& in_shape(s, next, frame_id)
            &&& if m.completed.contains_key(frame_id) {
                &&& next.completed.contains_key(frame_id)
                &&& next.counters.frames_complete == m.counters.frames_complete
            } else if all_set(marks) {
                &&& next.completed.contains_key(frame_id)
                &&& next.counters.frames_complete == m.counters.frames_complete + 1
            } else {
                &&& !next.completed.contains_key(frame_id)
                &&& next.frames.contains_key(frame_id)
                &&& next.frames[frame_id].seen == marks
                &&& next.counters.frames_complete == m.counters.frames_complete
            }
        }),
{
    let header = lemma_video_packet(s, packet, frame_id, index);
    lemma_chunk_count(s);
    law_datagram_keeps_invariant(m, config, packet, addr, now);
    let next = datagram_handled(m, config, packet, addr, now).0;
    let noted = packet_noted(m, addr, now);
    let entered = session_entered(noted, header.session_id, addr, now);
    assert(entered.frames == m.frames && entered.completed == m.completed && entered.session == m.session);
    let ruled = initial_drop_applied(entered, config.drop_initial_frame_video_every, header);
    assert(ruled == entered);
    lemma_observed(ruled, header, config.quiet_frames, now);
    let seen = observed(ruled, header, config.quiet_frames, now);
    assert(next == chunk_handled(seen, config, header, now).0);
    if !m.completed.contains_key(frame_id) {
        let frame = if m.frames.contains_key(frame_id) {
            m.frames[frame_id]
        } else {
            FrameModel::opened(
                header.session_id,
                header.frame_size,
                header.chunk_count,
                header.sent_unix_us,
                now,
            )
        };
        let marks = chunk_marks(m, frame_id, s.chunk_count() as nat);
        assert(frame.seen =~= marks);
        lemma_count_bounds(frame.seen);
        law_accept_chunk(frame, index as int, header.payload_len);
        let after = frame.accepted(index as int, header.payload_len);
        assert(after.seen =~= marks.update(index as int, true));
        lemma_count_bounds(after.seen);
        assert(after.complete() <==> all_set(after.seen));
        let retention = saturating_product(config.frame_timeout_ms as int, 2);
        assert(retention > 0);
        assert(!has_elapsed(now, now, retention));
        if after.complete() {
            assert(next.completed == remembered(seen.completed.insert(frame_id, now), now, retention));
        } else {
            assert(next.frames[frame_id] == after);
        }
    }
}

/// A frame arrives whole: whatever the order in which its packets come, however
/// often and with whatever the receiver had of it before, it is completed, and
/// counted once, if and only if each of its chunks is there.
pub proof fn law_frame_is_delivered(
    s: UdpSenderModel,
    m: UdpModel,
    config: UdpServerConfig<String>,
    frame_id: u64,
    packets: Seq<Seq<u8>>,
    indexes: Seq<u32>,
    addr: PeerAddr,
    times: Seq<u64>,
)
    requires
        s.wf(),
        m.wf(),
        m.session == Some(s.session_id),
        lossless(config),
        udp_server_fault(config) is None,
        m.counters.frames_complete < u64::MAX,
        !m.completed.contains_key(frame_id),
        in_shape(s, m, frame_id),
        packets.len() == indexes.len(),
        forall|i: int|
            0 <= i < packets.len() ==> (#[trigger] indexes[i]) < s.chunk_count() && s.is_video_packet(
                packets[i],
                frame_id,
                indexes[i],
            ),
    ensures
        ({
            let next = delivered(m, config, packets, addr, times);
            let marks = chunk_marks(m, frame_id, s.chunk_count() as nat);
            let all_there = forall|index: u32|
                index < s.chunk_count() ==> marks[index as int] || #[trigger] indexes.contains(index);
            &&& next.completed.contains_key(frame_id) <==> all_there
            &&& next.counters.frames_complete == m.counters.frames_complete + if all_there {
                1int
            } else {
                0int
            }
        }),
{
    lemma_deliveries(s, m, config, frame_id, packets, indexes, addr, times);
}

/// The chunks marked after packets have arrived.
spec fn marks_after(marks: Seq<bool>, indexes: Seq<u32>) -> Seq<bool> {
    Seq::new(marks.len(), |i: int| marks[i] || indexes.contains(i as u32))
}

proof fn lemma_deliveries(
    s: UdpSenderModel,
    m: UdpModel,
    config: UdpServerConfig<String>,
    frame_id: u64,
    packets: Seq<Seq<u8>>,
    indexes: Seq<u32>,
    addr: PeerAddr,
    times: Seq<u64>,
)
    requires
        s.wf(),
        m.wf(),
        m.session == Some(s.session_id),
        lossless(config),
        udp_server_fault(config) is None,
        m.counters.frames_complete < u64::MAX,
        !m.completed.contains_key(frame_id),
        in_shape(s, m, frame_id),
        packets.len() == indexes.len(),
        forall|i: int|
            0 <= i < packets.len() ==> (#[trigger] indexes[i]) < s.chunk_count() && s.is_video_packet(
                packets[i],
                frame_id,
                indexes[i],
            ),
    ensures
        ({
            let next = delivered(m, config, packets, addr, times);
            let marks = chunk_marks(m, frame_id, s.chunk_count() as nat);
            let after = marks_after(marks, indexes);
            &&& next.wf()
            &&& next.session == m.session
            &&& in_shape(s, next, frame_id)
            &&& marks.len() == s.chunk_count()
            &&& if all_set(after) {
                &&& next.completed.contains_key(frame_id)
                &&& next.counters.frames_complete == m.counters.frames_complete + 1
            } else {
                &&& !next.completed.contains_key(frame_id)
                &&& chunk_marks(next, frame_id, s.chunk_count() as nat) == after
                &&& next.counters.frames_complete == m.counters.frames_complete
            }
        }),
        (forall|index: u32|
            index < s.chunk_count() ==> chunk_marks(m, frame_id, s.chunk_count() as nat)[index as int]
                || #[trigger] indexes.contains(index)) <==> all_set(
            marks_after(chunk_marks(m, frame_id, s.chunk_count() as nat), indexes),
        ),
    decreases packets.len(),
{
    let count = s.chunk_count() as nat;
    lemma_chunk_count(s);
    let marks = chunk_marks(m, frame_id, count);
    let after = marks_after(marks, indexes);
    if m.frames.contains_key(frame_id) {
        assert(m.frames[frame_id].pending());
    }
    assert(marks.len() == count);
    if all_set(after) {
        assert forall|index: u32| index < count implies marks[index as int]
            || #[trigger] indexes.contains(index) by {
            assert(after[index as int]);
        }
    }
    if packets.len() == 0 {
        assert(after =~= marks);
        lemma_count_bounds(marks);
        assert(!all_set(marks)) by {
            assert(!marks[0] || m.frames.contains_key(frame_id));
        }
    } else {
        let head = indexes.drop_last();
        let before = delivered(m, config, packets.drop_last(), addr, times);
        assert forall|i: int| 0 <= i < packets.drop_last().len() implies (#[trigger] head[i])
            < s.chunk_count() && s.is_video_packet(packets.drop_last()[i], frame_id, head[i]) by {
            assert(head[i] == indexes[i]);
        }
        lemma_deliveries(s, m, config, frame_id, packets.drop_last(), head, addr, times);
        let last = indexes.last();
        assert(indexes[indexes.len() - 1] == last);
        let earlier = marks_after(marks, head);
        assert forall|i: int| 0 <= i < count implies #[trigger] after[i] == (earlier[i] || i == last) by {
            if indexes.contains(i as u32) {
                let k = choose|k: int| 0 <= k < indexes.len() && indexes[k] == i as u32;
                if k < head.len() {
                    assert(head[k] == i as u32);
                }
            }
            if head.contains(i as u32) {
                let k = choose|k: int| 0 <= k < head.len() && head[k] == i as u32;
                assert(indexes[k] == i as u32);
            }
        }
        assert(after =~= earlier.update(last as int, true));
        if all_set(earlier) {
            assert(all_set(after));
        }
        lemma_packet_delivered(
            s,
            before,
            config,
            frame_id,
            packets.last(),
            last,
            addr,
            times[packets.len() - 1],
        );
    }
}

/// What was lost is recovered: the receiver's request for the missing chunks of
/// a frame, handed to a sender that still keeps the frame, is answered by packets
/// whose arrival completes the frame.
pub proof fn law_request_restores_frame(
    s: UdpSenderModel,
    m: UdpModel,
    config: UdpServerConfig<String>,
    frame_id: u64,
    unix_us: u64,
    verbose: bool,
    addr: PeerAddr,
    times: Seq<u64>,
)
    requires
        s.wf(),
        m.wf(),
        m.session == Some(s.session_id),
        lossless(config),
        udp_server_fault(config) is None,
        m.counters.frames_complete < u64::MAX,
        m.frames.contains_key(frame_id),
        m.frames[frame_id].session_id == s.session_id,
        m.frames[frame_id].chunk_count - m.frames[frame_id].chunks_seen() <= config.nack_max_chunks,
        in_shape(s, m, frame_id),
        s.cache.contains_key(frame_id),
        s.cache[frame_id].len() == s.chunk_count(),
    ensures
        ({
            let request = nack_for(frame_id, m.frames[frame_id], config.nack_max_chunks, unix_us).packet;
            let answer = control_handled(s, request, verbose).1;
            let next = delivered(m, config, answer, addr, times);
            &&& next.completed.contains_key(frame_id)
            &&& next.counters.frames_complete == m.counters.frames_complete + 1
        }),
{
    let frame = m.frames[frame_id];
    assert(frame.pending());
    let chunks = requested_chunks(frame, config.nack_max_chunks);
    law_request_names_missing_chunks(frame, config.nack_max_chunks);
    lemma_index_bytes_len(chunks);
    law_request_indexes_round_trip(chunks);
    let header = nack_header(frame_id, frame, chunks.len(), unix_us);
    law_udp_packet_round_trip(header, index_bytes(chunks));
    let request = nack_for(frame_id, frame, config.nack_max_chunks, unix_us).packet;
    let answer = control_handled(s, request, verbose).1;
    let counted = nack_counted(s.stats, chunks.len());
    let kept = s.cache[frame_id];
    law_resent_packets(counted, kept, chunks);
    assert(answer == chunks.map_values(|index: u32| kept[index as int]));
    assert forall|i: int| 0 <= i < answer.len() implies (#[trigger] chunks[i]) < s.chunk_count()
        && s.is_video_packet(answer[i], frame_id, chunks[i]) by {
        assert(answer[i] == kept[chunks[i] as int]);
    }
    law_frame_is_delivered(s, m, config, frame_id, answer, chunks, addr, times);
}

} // verus!
