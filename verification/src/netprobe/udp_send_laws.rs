//! What the UDP sender sends, keeps and counts.
use vstd::prelude::*;

use crate::netprobe::config::UdpClientConfig;
use crate::netprobe::tcp_client::{pause_due, FrameEvent};
use crate::netprobe::udp_client::{
    announcement, client_step, control_handled, farewell, frame_target, law_cache_keeps_newest,
    nack_counted, nack_handled, resent, UdpActionModel, UdpClientEvent, UdpClientStats, UdpPhase,
    UdpSenderModel,
};
use crate::netprobe::wire::{
    chunk_len, decoded_udp_packet, law_chunks_cover_frame, law_udp_packet_round_trip,
    lemma_ceil_div_bounds, payload_bytes, status_of, UdpVideoPacketHeader, WireError,
};
use crate::netprobe::wire_laws::law_packet_layout;

verus! {

/// The number of chunks of a frame is the smallest that holds its bytes; chunk
/// `index` carries `len` of them, the rest of the frame at the end and a full
/// payload before.
pub open spec fn has_shape(m: UdpSenderModel, count: int, index: int, len: int) -> bool {
    &&& (count - 1) * m.payload_size < m.frame_size <= count * m.payload_size
    &&& index < count - 1 ==> len == m.payload_size
    &&& index == count - 1 ==> len == m.frame_size - index * m.payload_size
}

proof fn lemma_shape(m: UdpSenderModel, count: int, index: int, len: int)
    requires
        m.wf(),
        has_shape(m, count, index, len),
        0 <= index < count,
    ensures
        m.chunk_count() == count,
        count <= u32::MAX,
        chunk_len(m.frame_size as int, m.payload_size as int, index) == len,
        0 < len <= m.payload_size,
{
    let size = m.frame_size as int;
    let part = m.payload_size as int;
    let sum = size + part - 1;
    let rest = sum - count * part;
    assert((count - 1) * part == count * part - part) by (nonlinear_arith);
    vstd::arithmetic::div_mod::lemma_fundamental_div_mod_converse(sum, part, count, rest);
    lemma_ceil_div_bounds(size, part);
    law_chunks_cover_frame(size, part);
    if index < count - 1 {
        assert(index * part <= (count - 2) * part) by (nonlinear_arith)
            requires
                index <= count - 2,
                0 < part,
        ;
        assert((count - 2) * part == count * part - part - part) by (nonlinear_arith);
    }
}

/// A chunk goes out as a video packet of its session and frame, with the number
/// of the chunk, the shape of the frame, the time and the payload of its place.
pub proof fn law_video_packet_holds_its_chunk(
    m: UdpSenderModel,
    frame_id: u64,
    index: u32,
    unix_us: u64,
    count: int,
    len: int,
)
    requires
        m.wf(),
        index < count,
        has_shape(m, count, index as int, len),
    ensures
        ({
            let packet = m.video_packet(frame_id, index, unix_us);
            let header = decoded_udp_packet(packet)->Ok_0;
            &&& decoded_udp_packet(packet) is Ok
            &&& header.packet_type == 1
            &&& header.session_id == m.session_id
            &&& header.frame_id == frame_id
            &&& header.chunk_index == index
            &&& header.chunk_count == count
            &&& header.frame_size == m.frame_size
            &&& header.payload_len == len
            &&& header.sent_unix_us == unix_us
            &&& packet.len() == 47 + len
            &&& packet.skip(47) == payload_bytes(frame_id, index, len as nat)
        }),
{
    lemma_shape(m, count, index as int, len);
    law_udp_packet_round_trip(
        m.video_header(frame_id, index, unix_us),
        payload_bytes(frame_id, index, len as nat),
    );
    let packet = m.video_packet(frame_id, index, unix_us);
    assert(packet.skip(47) == payload_bytes(frame_id, index, len as nat));
    assert(packet.len() == 47 + len) by {
        law_packet_layout(
            m.video_header(frame_id, index, unix_us),
            payload_bytes(frame_id, index, len as nat),
        );
    }
}

/// A frame is announced by its number and its shape, without payload; the
/// session ends with a packet that names the number of frames.
pub proof fn law_control_packets_name_the_frame(m: UdpSenderModel, unix_us: u64, count: int, len: int)
    requires
        m.wf(),
        has_shape(m, count, 0, len),
        count > 0,
    ensures
        ({
            let opening = decoded_udp_packet(announcement(m, unix_us));
            let closing = decoded_udp_packet(farewell(m, unix_us));
            &&& opening == Ok::<UdpVideoPacketHeader, WireError>(
                UdpVideoPacketHeader {
                    packet_type: 4,
                    session_id: m.session_id,
                    frame_id: m.frames_sent,
                    chunk_index: 0,
                    chunk_count: count as u32,
                    frame_size: m.frame_size,
                    payload_len: 0,
                    sent_unix_us: unix_us,
                },
            )
            &&& closing == Ok::<UdpVideoPacketHeader, WireError>(
                UdpVideoPacketHeader {
                    packet_type: 2,
                    session_id: m.session_id,
                    frame_id: m.frames_sent,
                    chunk_index: 0,
                    chunk_count: 0,
                    frame_size: 0,
                    payload_len: 0,
                    sent_unix_us: unix_us,
                },
            )
        }),
{
    lemma_shape(m, count, 0, len);
    let opening = UdpVideoPacketHeader {
        packet_type: 4,
        session_id: m.session_id,
        frame_id: m.frames_sent,
        chunk_index: 0,
        chunk_count: count as u32,
        frame_size: m.frame_size,
        payload_len: 0,
        sent_unix_us: unix_us,
    };
    let closing = UdpVideoPacketHeader {
        packet_type: 2,
        chunk_count: 0,
        frame_size: 0,
        ..opening
    };
    law_udp_packet_round_trip(opening, seq![]);
    law_udp_packet_round_trip(closing, seq![]);
}

/// The run has as many frames as the duration has at the rate.
pub proof fn law_run_has_its_frames(config: UdpClientConfig<String>)
    ensures
        config.duration_sec * config.fps <= u64::MAX ==> frame_target(config) == config.duration_sec
            * config.fps,
        config.duration_sec * config.fps > u64::MAX ==> frame_target(config) == u64::MAX,
{
    assert(0 <= config.duration_sec * config.fps) by (nonlinear_arith)
        requires
            0 <= config.duration_sec,
            0 <= config.fps,
    ;
}

/// While chunks are left the next one goes out. It is counted with its bytes, and
/// where frames are kept its packet is kept behind those before it.
pub proof fn law_next_chunk_goes_out(
    m: UdpSenderModel,
    config: UdpClientConfig<String>,
    now: u64,
    unix_us: u64,
    count: int,
    len: int,
)
    requires
        m.wf(),
        m.phase is Video,
        m.next_chunk < count,
        has_shape(m, count, m.next_chunk as int, len),
        m.packets_sent < u64::MAX,
        m.bytes_sent + len <= u64::MAX,
    ensures
        ({
            let (next, action) = client_step(m, config, now, unix_us);
            let packet = m.video_packet(m.frames_sent, m.next_chunk, unix_us);
            &&& action == UdpActionModel::Video(packet)
            &&& next.next_chunk == m.next_chunk + 1
            &&& next.packets_sent == m.packets_sent + 1
            &&& next.bytes_sent == m.bytes_sent + len
            &&& next.frames_sent == m.frames_sent
            &&& next.stats == m.stats
            &&& m.cache_frames > 0 && m.cache.contains_key(m.frames_sent)
                ==> next.cache.contains_key(m.frames_sent) && next.cache[m.frames_sent]
                == m.cache[m.frames_sent].push(packet)
            &&& m.cache_frames == 0 ==> next.cache == m.cache
            &&& forall|id: u64|
                id != m.frames_sent ==> (#[trigger] next.cache.contains_key(id) <==> m.cache.contains_key(id))
            &&& forall|id: u64|
                id != m.frames_sent && #[trigger] m.cache.contains_key(id) ==> next.cache[id] == m.cache[id]
        }),
{
    lemma_shape(m, count, m.next_chunk as int, len);
}

/// After a chunk the sender pauses exactly if pacing asks for it, and otherwise
/// looks for control packets; a chunk is reported where that was asked for.
pub proof fn law_sent_chunk_is_reported(
    m: UdpSenderModel,
    config: UdpClientConfig<String>,
    now: u64,
    unix_us: u64,
    index: u32,
    payload_len: u32,
)
    requires
        m.phase == (UdpPhase::Sent { index, payload_len }),
    ensures
        ({
            let (next, action) = client_step(m, config, now, unix_us);
            let count = m.chunk_count() as u32;
            let paced = pause_due(config.pace_every, config.pace_us, m.next_chunk, count);
            &&& paced ==> action == (UdpActionModel::Pause { us: config.pace_us })
            &&& !paced ==> action == UdpActionModel::Drain
            &&& config.verbose_chunks ==> next.log == m.log.push(
                UdpClientEvent::Frame(
                    FrameEvent::ChunkSent {
                        frame_id: m.frames_sent,
                        chunk_index: index,
                        chunk_count: count,
                        payload_len,
                    },
                ),
            )
            &&& !config.verbose_chunks ==> next.log == m.log
            &&& next.next_chunk == m.next_chunk
        }),
{
}

/// A frame that is done is counted, and the sender sleeps until a period after it
/// was due, `period` nanoseconds, or goes on where that time is over.
pub proof fn law_frame_is_done(
    m: UdpSenderModel,
    config: UdpClientConfig<String>,
    now: u64,
    unix_us: u64,
    period: int,
)
    requires
        m.wf(),
        m.phase is Closed,
        config.fps > 0,
        period * config.fps <= 1_000_000_000 < (period + 1) * config.fps,
        m.due + period <= u64::MAX,
    ensures
        ({
            let (next, action) = client_step(m, config, now, unix_us);
            &&& next.frames_sent == m.frames_sent + 1
            &&& next.next_chunk == 0
            &&& next.phase is Frame
            &&& now <= m.due + period ==> next.due == m.due + period && (action matches UdpActionModel::Sleep {
                ns,
            } && now + ns == m.due + period)
            &&& now > m.due + period ==> next.due == now && action == UdpActionModel::Late
            &&& next.packets_sent == m.packets_sent
            &&& next.stats == m.stats
            &&& next.cache == m.cache
        }),
{
    let n = config.fps as int;
    assert((period + 1) * n == period * n + n) by (nonlinear_arith);
    vstd::arithmetic::div_mod::lemma_fundamental_div_mod_converse(
        1_000_000_000,
        n,
        period,
        1_000_000_000 - period * n,
    );
    assert(0 <= period <= 1_000_000_000) by (nonlinear_arith)
        requires
            n >= 1,
            period * n <= 1_000_000_000,
            1_000_000_000 < (period + 1) * n,
    ;
}

/// After the last frame the sender looks for control packets and sleeps for a
/// millisecond in turn, until the linger time has passed. Then the packet that
/// ends the session goes out three times, each with a sleep of five milliseconds
/// behind it.
pub proof fn law_session_ends_after_lingering(
    m: UdpSenderModel,
    config: UdpClientConfig<String>,
    now: u64,
    unix_us: u64,
)
    ensures
        ({
            let (next, action) = client_step(m, config, now, unix_us);
            &&& m.phase matches UdpPhase::Linger { since } ==> {
                let over = config.nack_linger_ms == 0 || now - since >= config.nack_linger_ms * 1_000_000;
                &&& !over ==> action == UdpActionModel::Drain && next.phase == (UdpPhase::Lingered { since })
                &&& over ==> action == (UdpActionModel::Bye { index: 0, packet: farewell(m, unix_us) })
            }
            &&& m.phase matches UdpPhase::Lingered { since } ==> action == (UdpActionModel::Sleep {
                ns: 1_000_000,
            }) && next.phase == (UdpPhase::Linger { since })
            &&& m.phase matches UdpPhase::Bye { sent, unix_us: at } ==> {
                &&& sent < 3 ==> action == (UdpActionModel::Bye { index: sent, packet: farewell(m, at) })
                    && next.phase == (UdpPhase::ByeSent { sent: (sent + 1) as u32, unix_us: at })
                &&& sent >= 3 ==> action == UdpActionModel::Done && next.phase is Done
            }
            &&& m.phase matches UdpPhase::ByeSent { sent, unix_us: at } ==> action == (UdpActionModel::Sleep {
                ns: 5_000_000,
            }) && next.phase == (UdpPhase::Bye { sent, unix_us: at })
        }),
{
}

// ---------------------------------------------------------------------------
// Control packets
// ---------------------------------------------------------------------------

/// A report replaces what the sender knows of the receiver's progress and asks
/// for nothing.
pub proof fn law_report_is_noted(m: UdpSenderModel, data: Seq<u8>, verbose: bool)
    requires
        decoded_udp_packet(data) matches Ok(header) && header.packet_type == 5,
        m.stats.statuses_received < u64::MAX,
    ensures
        ({
            let (next, packets) = control_handled(m, data, verbose);
            let status = status_of(data.skip(47));
            &&& packets.len() == 0
            &&& next.stats == (UdpClientStats {
                statuses_received: (m.stats.statuses_received + 1) as u64,
                status_frames_complete: status.frames_complete,
                status_frames_skipped: status.frames_skipped,
                status_last_observed_frame_id: status.last_observed_frame_id,
                ..m.stats
            })
            &&& next.cache == m.cache
            &&& next.phase == m.phase
            &&& next.log.len() == m.log.len() + if verbose { 1int } else { 0int }
        }),
{
}

/// Whatever else arrives asks for nothing and changes nothing but the log: bytes
/// that are no packet and requests of another session are reported, packets of
/// other types are not.
pub proof fn law_other_control_packets_are_ignored(m: UdpSenderModel, data: Seq<u8>, verbose: bool)
    requires
        decoded_udp_packet(data) matches Ok(header) ==> header.packet_type != 5 && (header.packet_type != 3
            || header.session_id != m.session_id),
    ensures
        ({
            let (next, packets) = control_handled(m, data, verbose);
            &&& packets.len() == 0
            &&& next.stats == m.stats
            &&& next.cache == m.cache
            &&& next.phase == m.phase
            &&& next.frames_sent == m.frames_sent
            &&& next.log.len() == m.log.len() + match decoded_udp_packet(data) {
                Ok(header) => if header.packet_type == 3 {
                    1int
                } else {
                    0int
                },
                Err(_) => 1int,
            }
        }),
{
}

proof fn lemma_resent_counts(stats: UdpClientStats, chunks: Seq<Seq<u8>>, indexes: Seq<u32>)
    requires
        stats.retransmit_packets + indexes.len() <= u64::MAX,
        stats.retransmit_misses + indexes.len() <= u64::MAX,
    ensures
        ({
            let (after, packets) = resent(stats, chunks, indexes);
            let hits = indexes.filter(|index: u32| index < chunks.len());
            &&& packets == hits.map_values(|index: u32| chunks[index as int])
            &&& packets.len() <= indexes.len()
            &&& after.retransmit_packets == stats.retransmit_packets + packets.len()
            &&& after.retransmit_misses == stats.retransmit_misses + indexes.len() - packets.len()
            &&& after.nacks_received == stats.nacks_received
            &&& after.nack_chunks_requested == stats.nack_chunks_requested
            &&& after.announce_packets_sent == stats.announce_packets_sent
            &&& after.statuses_received == stats.statuses_received
        }),
    decreases indexes.len(),
{
    reveal(Seq::filter);
    let keep = |index: u32| index < chunks.len();
    let show = |index: u32| chunks[index as int];
    if indexes.len() > 0 {
        let head = indexes.drop_last();
        lemma_resent_counts(stats, chunks, head);
        if keep(indexes.last()) {
            assert(indexes.filter(keep) == head.filter(keep).push(indexes.last()));
            assert(indexes.filter(keep).map_values(show) =~= head.filter(keep).map_values(show).push(
                chunks[indexes.last() as int],
            ));
        }
    } else {
        assert(indexes.filter(keep).map_values(show) =~= seq![]);
    }
}

/// A request for chunks of a frame that is kept is answered by the packets of
/// those that the frame has, in the order asked for; each is counted as sent
/// again, each other one as a miss. The request and what it asked for are
/// counted, and nothing else changes.
pub proof fn law_kept_chunks_are_resent(m: UdpSenderModel, frame_id: u64, indexes: Seq<u32>, verbose: bool)
    requires
        m.cache.contains_key(frame_id),
        m.stats.nacks_received < u64::MAX,
        m.stats.nack_chunks_requested + indexes.len() <= u64::MAX,
        m.stats.retransmit_packets + indexes.len() <= u64::MAX,
        m.stats.retransmit_misses + indexes.len() <= u64::MAX,
    ensures
        ({
            let (next, packets) = nack_handled(m, frame_id, indexes, verbose);
            let hits = indexes.filter(|index: u32| index < m.cache[frame_id].len());
            &&& packets == hits.map_values(|index: u32| m.cache[frame_id][index as int])
            &&& next.stats.nacks_received == m.stats.nacks_received + 1
            &&& next.stats.nack_chunks_requested == m.stats.nack_chunks_requested + indexes.len()
            &&& next.stats.retransmit_packets == m.stats.retransmit_packets + packets.len()
            &&& next.stats.retransmit_misses == m.stats.retransmit_misses + indexes.len() - packets.len()
            &&& next.stats.announce_packets_sent == m.stats.announce_packets_sent
            &&& next.cache == m.cache
            &&& next.packets_sent == m.packets_sent
            &&& next.bytes_sent == m.bytes_sent
            &&& next.phase == m.phase
        }),
{
    let counted = nack_counted(m.stats, indexes.len());
    lemma_resent_counts(counted, m.cache[frame_id], indexes);
}

/// A packet that is sent again is counted with the bytes behind its header.
pub proof fn law_resent_bytes_are_counted(stats: UdpClientStats, chunks: Seq<Seq<u8>>, index: u32)
    requires
        index < chunks.len(),
        chunks[index as int].len() >= 47,
        stats.retransmit_bytes + chunks[index as int].len() <= u64::MAX,
    ensures
        resent(stats, chunks, seq![index]).0.retransmit_bytes == stats.retransmit_bytes
            + chunks[index as int].len() - 47,
{
    reveal_with_fuel(resent, 2);
    let one = seq![index];
    assert(one.drop_last() =~= seq![]);
    assert(one.last() == index);
}

/// A request for a frame that is not kept is counted, all that it asks for is
/// missed, and nothing is sent.
pub proof fn law_forgotten_frame_is_missed(m: UdpSenderModel, frame_id: u64, indexes: Seq<u32>, verbose: bool)
    requires
        !m.cache.contains_key(frame_id),
        m.stats.nacks_received < u64::MAX,
        m.stats.nack_chunks_requested + indexes.len() <= u64::MAX,
        m.stats.retransmit_misses + indexes.len() <= u64::MAX,
    ensures
        ({
            let (next, packets) = nack_handled(m, frame_id, indexes, verbose);
            &&& packets.len() == 0
            &&& next.stats == (UdpClientStats {
                nacks_received: (m.stats.nacks_received + 1) as u64,
                nack_chunks_requested: (m.stats.nack_chunks_requested + indexes.len()) as u64,
                retransmit_misses: (m.stats.retransmit_misses + indexes.len()) as u64,
                ..m.stats
            })
            &&& next.cache == m.cache
        }),
{
}

// ---------------------------------------------------------------------------
// Frames
// ---------------------------------------------------------------------------

/// While frames are left the next one is begun: its time is noted, where frames
/// are kept a place is made for it and the frames kept before stay, and it is
/// announced, and the announcement counted, exactly if that was asked for.
pub proof fn law_frame_is_begun(m: UdpSenderModel, config: UdpClientConfig<String>, now: u64, unix_us: u64)
    requires
        m.phase is Frame,
        m.frames_sent < frame_target(config),
        m.stats.announce_packets_sent < u64::MAX,
        config.announce_frames,
    ensures
        ({
            let (next, action) = client_step(m, config, now, unix_us);
            &&& action == UdpActionModel::Announce(announcement(m, unix_us))
            &&& next.phase is Video
            &&& next.next_chunk == 0
            &&& next.frame_started == now
            &&& next.frames_sent == m.frames_sent
            &&& next.stats.announce_packets_sent == m.stats.announce_packets_sent + 1
            &&& m.cache_frames > 0 ==> next.cache == m.cache.insert(m.frames_sent, Seq::empty())
            &&& m.cache_frames == 0 ==> next.cache == m.cache
            &&& next.log.len() == m.log.len() + if config.quiet_frames { 0int } else { 1int }
        }),
{
}

/// Without announcements a frame starts with its first chunk.
pub proof fn law_frame_starts_with_its_first_chunk(
    m: UdpSenderModel,
    config: UdpClientConfig<String>,
    now: u64,
    unix_us: u64,
)
    requires
        m.wf(),
        m.phase is Frame,
        m.frames_sent < frame_target(config),
        !config.announce_frames,
    ensures
        ({
            let (next, action) = client_step(m, config, now, unix_us);
            &&& action == UdpActionModel::Video(m.video_packet(m.frames_sent, 0, unix_us))
            &&& next.next_chunk == 1
            &&& next.frame_started == now
            &&& next.stats == m.stats
            &&& m.cache_frames > 0 ==> next.cache.contains_key(m.frames_sent)
                && next.cache[m.frames_sent].len() == 1
        }),
{
    lemma_ceil_div_bounds(m.frame_size as int, m.payload_size as int);
}

/// After its last chunk a frame is closed with one more look for control packets,
/// and the oldest frames are forgotten until no more are kept than asked for.
pub proof fn law_frame_end_forgets_the_oldest(
    m: UdpSenderModel,
    config: UdpClientConfig<String>,
    now: u64,
    unix_us: u64,
    kept: u64,
    gone: u64,
)
    requires
        m.wf(),
        m.phase is Video,
        m.next_chunk == m.chunk_count(),
        m.cache_frames > 0,
    ensures
        ({
            let (next, action) = client_step(m, config, now, unix_us);
            &&& action == UdpActionModel::Drain
            &&& next.phase is Closed
            &&& next.cache.dom().len() == if m.cache.dom().len() < m.cache_frames {
                m.cache.dom().len() as int
            } else {
                m.cache_frames as int
            }
            &&& next.cache.contains_key(kept) ==> m.cache.contains_key(kept) && next.cache[kept]
                == m.cache[kept]
            &&& next.cache.contains_key(kept) && m.cache.contains_key(gone) && !next.cache.contains_key(gone)
                ==> gone < kept
        }),
{
    law_cache_keeps_newest(m, m.cache_frames);
}

} // verus!
