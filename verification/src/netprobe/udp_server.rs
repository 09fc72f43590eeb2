//! The UDP receiver: reassembles frames, asks for missing chunks and reports its
//! progress. The caller reads and sends the datagrams.
use std::collections::BTreeMap;
use vstd::prelude::*;

use crate::bytes::{be_bytes, lemma_be_len, push_be32};
use crate::netprobe::clock::{
    elapsed, elapsed_at_least, elapsed_us, has_elapsed, saturating_mul, saturating_product, saturating_sum,
};
use crate::netprobe::config::{udp_server_fault, UdpServerConfig};
use crate::netprobe::frames::{
    all_pending, ascending, frame_models, lemma_count_bounds, lemma_models_dom,
    lemma_models_insert, lemma_models_remove, lemma_unset_indexes, lists, sorted, sorted_keys,
    unset_indexes, FrameModel, FrameRxState,
};
use crate::netprobe::wire::{
    decode_udp_packet, decoded_udp_packet, encode_udp_status, field, packet_bytes, status_bytes, udp_packet,
    UdpStatusMsg, UdpVideoPacketHeader, WireError,
    MAX_UDP_PACKET_LEN, UDP_PACKET_ANNOUNCE, UDP_PACKET_BYE, UDP_PACKET_NACK,
    UDP_PACKET_STATUS, UDP_PACKET_VIDEO, UDP_STATUS_BODY_LEN,
};

verus! {

/// How many frames a single jump of the frame number opens at most.
pub const MAX_SYNTHETIC_GAP_FRAMES: u64 = 120;

/// A socket address.
#[derive(Clone, Copy, Debug, PartialEq, Eq, Structural)]
pub struct PeerAddr {
    pub v6: bool,
    pub ip: u128,
    pub port: u16,
    pub flowinfo: u32,
    pub scope_id: u32,
}

/// Why open frames were given up.
#[derive(Clone, Copy, Debug, PartialEq, Eq, Structural)]
pub enum ExpireReason {
    Bye,
    SessionReplaced,
    FrameTimeout,
    ReadTimeout,
}

/// What opened a frame.
#[derive(Clone, Copy, Debug, PartialEq, Eq, Structural)]
pub enum OpenKind {
    Announced,
    Gap,
    Chunk(u32),
}

/// What the receiver reports as it goes.
#[derive(Clone, Copy, Debug, PartialEq, Eq, Structural)]
pub enum UdpEvent {
    Peer { addr: PeerAddr },
    SimulatedDrop { packet_index: u64, bytes: usize },
    BadPacket { peer: PeerAddr, bytes: usize, error: WireError },
    PeerUpdate { addr: PeerAddr, session_id: u64 },
    Session { addr: PeerAddr, session_id: u64 },
    InitialFrameVideoDrop { frame_id: u64, chunk_index: u32, chunk_count: u32 },
    BadChunk { frame_id: u64, chunk_index: u32, chunk_count: u32 },
    FrameOpened { kind: OpenKind, frame_id: u64, chunk_count: u32, frame_size: u32 },
    FrameGapCapped { gap_start: u64, gap_end: u64, opened: u64, cap: u64 },
    LateCompleteChunk { frame_id: u64, chunk_index: u32 },
    Chunk { frame_id: u64, chunk_index: u32, chunk_count: u32, payload_len: u32 },
    FrameMismatch {
        frame_id: u64,
        expected_chunks: u32,
        got_chunks: u32,
        expected_size: u32,
        got_size: u32,
    },
    DuplicateChunk { frame_id: u64, chunk_index: u32 },
    FrameComplete {
        frame_id: u64,
        chunks_seen: u32,
        chunk_count: u32,
        bytes_seen: u32,
        sender_first_unix_us: u64,
        elapsed_us: u64,
    },
    FrameExpired {
        reason: ExpireReason,
        frame_id: u64,
        chunks_seen: u32,
        chunk_count: u32,
        missing_chunks: u32,
        bytes_seen: u32,
        frame_size: u32,
        elapsed_us: u64,
    },
    NackSent { frame_id: u64, missing_chunks: u32, round: u32 },
}

/// The receiver's totals.
#[derive(Clone, Copy, Debug, PartialEq, Eq, Structural)]
pub struct UdpCounters {
    pub packets_total: u64,
    pub packets_dropped: u64,
    pub chunks_total: u64,
    pub bytes_total: u64,
    pub frames_complete: u64,
    pub frames_expired: u64,
    pub announce_packets_total: u64,
    pub synthetic_frames_opened: u64,
    pub nack_packets_sent: u64,
    pub nack_chunks_requested: u64,
    pub status_packets_sent: u64,
}

/// What the caller does after a datagram.
#[derive(Clone, Copy, Debug, PartialEq, Eq, Structural)]
pub enum Verdict {
    /// Nothing.
    Ignored,
    /// Send the due requests, then call `after_nacks` with the session.
    Service { session_id: u64 },
    /// Send a last status report for the session, unless reports are off, and
    /// stop.
    Finished { report_session: Option<u64> },
}

/// What a [`UdpReceiver`] stands for.
pub struct UdpModel {
    pub frames: Map<u64, FrameModel>,
    /// When each frame was completed.
    pub completed: Map<u64, u64>,
    /// How many video packets of a frame were dropped on purpose.
    pub drop_counts: Map<u64, u32>,
    pub peer: Option<PeerAddr>,
    pub session: Option<u64>,
    pub last_observed: Option<u64>,
    pub last_status_at: u64,
    pub last_packet_at: u64,
    pub counters: UdpCounters,
    pub log: Seq<UdpEvent>,
}

impl UdpModel {
    /// Finitely many frames are open, they wait for chunks, and a completed frame
    /// is not open.
    pub open spec fn wf(self) -> bool {
        &&& self.frames.dom().finite()
        &&& forall|id: u64| #[trigger] self.frames.contains_key(id) ==> self.frames[id].pending()
        &&& forall|id: u64|
            #[trigger] self.frames.contains_key(id) ==> !self.completed.contains_key(id)
    }

    pub open spec fn logged(self, event: UdpEvent) -> UdpModel {
        UdpModel { log: self.log.push(event), ..self }
    }

    pub open spec fn logged_if(self, enabled: bool, event: UdpEvent) -> UdpModel {
        if enabled {
            self.logged(event)
        } else {
            self
        }
    }

    /// Whether the count of expired frames has room for all open ones.
    pub open spec fn has_room(self) -> bool {
        self.counters.frames_expired + self.frames.dom().len() <= u64::MAX
    }
}

pub open spec fn zero_counters() -> UdpCounters {
    UdpCounters {
        packets_total: 0,
        packets_dropped: 0,
        chunks_total: 0,
        bytes_total: 0,
        frames_complete: 0,
        frames_expired: 0,
        announce_packets_total: 0,
        synthetic_frames_opened: 0,
        nack_packets_sent: 0,
        nack_chunks_requested: 0,
        status_packets_sent: 0,
    }
}

/// A receiver that has heard nothing.
pub open spec fn fresh_receiver(now: u64) -> UdpModel {
    UdpModel {
        frames: Map::empty(),
        completed: Map::empty(),
        drop_counts: Map::empty(),
        peer: None,
        session: None,
        last_observed: None,
        last_status_at: now,
        last_packet_at: now,
        counters: zero_counters(),
        log: seq![],
    }
}

// ---------------------------------------------------------------------------
// Expiry
// ---------------------------------------------------------------------------

pub open spec fn expired_event(reason: ExpireReason, frame_id: u64, frame: FrameModel, now: u64) -> UdpEvent {
    UdpEvent::FrameExpired {
        reason,
        frame_id,
        chunks_seen: frame.chunks_seen() as u32,
        chunk_count: frame.chunk_count,
        missing_chunks: (frame.chunk_count - frame.chunks_seen()) as u32,
        bytes_seen: frame.bytes_seen,
        frame_size: frame.frame_size,
        elapsed_us: (elapsed(frame.started, now) / 1000) as u64,
    }
}

/// The open frames that have been open for at least the timeout, ascending.
pub open spec fn expired_ids(frames: Map<u64, FrameModel>, now: u64, timeout_ms: u64) -> Seq<u64> {
    sorted(frames.dom()).filter(|id: u64| has_elapsed(frames[id].started, now, timeout_ms))
}

/// The receiver after giving up the frames that have been open for at least the
/// timeout.
pub open spec fn expired(m: UdpModel, reason: ExpireReason, now: u64, timeout_ms: u64) -> UdpModel {
    let ids = expired_ids(m.frames, now, timeout_ms);
    UdpModel {
        frames: m.frames.remove_keys(ids.to_set()),
        counters: UdpCounters {
            frames_expired: (m.counters.frames_expired + ids.len()) as u64,
            ..m.counters
        },
        log: m.log + ids.map_values(|id: u64| expired_event(reason, id, m.frames[id], now)),
        ..m
    }
}

// ---------------------------------------------------------------------------
// Opening frames
// ---------------------------------------------------------------------------

/// Whether a frame is neither open nor completed.
pub open spec fn can_open(m: UdpModel, frame_id: u64) -> bool {
    !m.completed.contains_key(frame_id) && !m.frames.contains_key(frame_id)
}

/// The receiver after opening the header's frame, unless it is open or completed.
pub open spec fn opened(
    m: UdpModel,
    header: UdpVideoPacketHeader,
    kind: OpenKind,
    quiet: bool,
    now: u64,
) -> UdpModel {
    if can_open(m, header.frame_id) {
        UdpModel {
            frames: m.frames.insert(
                header.frame_id,
                FrameModel::opened(
                    header.session_id,
                    header.frame_size,
                    header.chunk_count,
                    header.sent_unix_us,
                    now,
                ),
            ),
            ..m
        }.logged_if(
            !quiet,
            UdpEvent::FrameOpened {
                kind,
                frame_id: header.frame_id,
                chunk_count: header.chunk_count,
                frame_size: header.frame_size,
            },
        )
    } else {
        m
    }
}

/// The receiver after opening the frames from `from` to `to`, exclusive, in the
/// shape of the header's frame, and how many were opened.
pub open spec fn opened_range(
    m: UdpModel,
    header: UdpVideoPacketHeader,
    from: int,
    to: int,
    quiet: bool,
    now: u64,
) -> (UdpModel, nat)
    decreases to - from,
{
    if from >= to {
        (m, 0)
    } else {
        let (before, count) = opened_range(m, header, from, to - 1, quiet, now);
        let gap = UdpVideoPacketHeader { frame_id: (to - 1) as u64, chunk_index: 0, ..header };
        (
            opened(before, gap, OpenKind::Gap, quiet, now),
            if can_open(before, gap.frame_id) { count + 1 } else { count },
        )
    }
}

/// Where the frames opened for a jump from `last` to `frame_id` end.
pub open spec fn gap_end(last: u64, frame_id: u64) -> int {
    if last + 1 + MAX_SYNTHETIC_GAP_FRAMES < frame_id {
        last + 1 + MAX_SYNTHETIC_GAP_FRAMES
    } else {
        frame_id as int
    }
}

/// The receiver after opening the frames between the last one observed and the
/// header's, at most 120 of them.
pub open spec fn gaps_opened(
    m: UdpModel,
    header: UdpVideoPacketHeader,
    last: u64,
    quiet: bool,
    now: u64,
) -> UdpModel {
    if header.frame_id <= last + 1 {
        m
    } else {
        let end = gap_end(last, header.frame_id);
        let (next, count) = opened_range(m, header, last + 1, end, quiet, now);
        UdpModel {
            counters: UdpCounters {
                synthetic_frames_opened: saturating_sum(
                    next.counters.synthetic_frames_opened as int,
                    count as int,
                ),
                ..next.counters
            },
            ..next.logged_if(
                end < header.frame_id && !quiet,
                UdpEvent::FrameGapCapped {
                    gap_start: (last + 1) as u64,
                    gap_end: header.frame_id,
                    opened: count as u64,
                    cap: MAX_SYNTHETIC_GAP_FRAMES,
                },
            )
        }
    }
}

// ---------------------------------------------------------------------------
// Datagrams
// ---------------------------------------------------------------------------

/// The receiver after counting a datagram.
pub open spec fn packet_noted(m: UdpModel, addr: PeerAddr, now: u64) -> UdpModel {
    let counted = UdpModel {
        last_packet_at: now,
        counters: UdpCounters {
            packets_total: saturating_sum(m.counters.packets_total as int, 1),
            ..m.counters
        },
        ..m
    };
    if m.peer is None {
        UdpModel { peer: Some(addr), ..counted }.logged(UdpEvent::Peer { addr })
    } else {
        counted
    }
}

/// The receiver with one more packet dropped on purpose.
pub open spec fn drop_counted(m: UdpModel) -> UdpModel {
    UdpModel {
        counters: UdpCounters {
            packets_dropped: saturating_sum(m.counters.packets_dropped as int, 1),
            ..m.counters
        },
        ..m
    }
}

/// The receiver after a packet of a session: the first packet of another session
/// gives up all that was known of the one before.
pub open spec fn session_entered(m: UdpModel, session_id: u64, addr: PeerAddr, now: u64) -> UdpModel {
    if m.session == Some(session_id) {
        if m.peer == Some(addr) {
            m
        } else {
            UdpModel { peer: Some(addr), ..m }.logged(UdpEvent::PeerUpdate { addr, session_id })
        }
    } else {
        let cleared = if m.session is Some {
            UdpModel {
                completed: Map::empty(),
                drop_counts: Map::empty(),
                last_observed: None,
                ..expired(m, ExpireReason::SessionReplaced, now, 0)
            }
        } else {
            m
        };
        UdpModel { session: Some(session_id), peer: Some(addr), ..cleared }.logged(
            UdpEvent::Session { addr, session_id },
        )
    }
}

/// How many video packets of the frame have been dropped on purpose.
pub open spec fn dropped_so_far(counts: Map<u64, u32>, frame_id: u64) -> u32 {
    if counts.contains_key(frame_id) {
        counts[frame_id]
    } else {
        0
    }
}

/// Whether the drop rule covers the packet: a video packet of every `every`th
/// frame.
pub open spec fn drop_rule_covers(every: u64, header: UdpVideoPacketHeader) -> bool {
    &&& every != 0
    &&& header.packet_type == UDP_PACKET_VIDEO
    &&& header.frame_id % every == 0
}

/// Whether the packet is one of the first that its frame loses on purpose.
pub open spec fn drops_initial(counts: Map<u64, u32>, every: u64, header: UdpVideoPacketHeader) -> bool {
    drop_rule_covers(every, header) && dropped_so_far(counts, header.frame_id) < header.chunk_count
}

/// The counts after the drop rule has been applied to the packet.
pub open spec fn initial_drop_counted(counts: Map<u64, u32>, every: u64, header: UdpVideoPacketHeader) -> Map<
    u64,
    u32,
> {
    if drop_rule_covers(every, header) {
        counts.insert(
            header.frame_id,
            if drops_initial(counts, every, header) {
                (dropped_so_far(counts, header.frame_id) + 1) as u32
            } else {
                dropped_so_far(counts, header.frame_id)
            },
        )
    } else {
        counts
    }
}

/// The receiver after the drop rule has been applied to the packet.
pub open spec fn initial_drop_applied(m: UdpModel, every: u64, header: UdpVideoPacketHeader) -> UdpModel {
    UdpModel { drop_counts: initial_drop_counted(m.drop_counts, every, header), ..m }
}

/// Applies the rule that drops the first video packets of every so many frames;
/// returns whether this packet is dropped.
pub fn should_drop_initial_frame_video(
    config: &UdpServerConfig<String>,
    header: &UdpVideoPacketHeader,
    drop_counts: &mut BTreeMap<u64, u32>,
) -> (drop: bool)
    ensures
        final(drop_counts)@ == initial_drop_counted(
            old(drop_counts)@,
            config.drop_initial_frame_video_every,
            *header,
        ),
        drop == drops_initial(old(drop_counts)@, config.drop_initial_frame_video_every, *header),
{
    broadcast use vstd::std_specs::btree::group_btree_axioms;

    if config.drop_initial_frame_video_every == 0 || header.packet_type != UDP_PACKET_VIDEO {
        return false;
    }
    if header.frame_id % config.drop_initial_frame_video_every != 0 {
        return false;
    }
    let dropped: u32 = match drop_counts.get(&header.frame_id) {
        Some(count) => *count,
        None => 0,
    };
    if dropped >= header.chunk_count {
        drop_counts.insert(header.frame_id, dropped);
        return false;
    }
    drop_counts.insert(header.frame_id, dropped + 1);
    true
}

/// The receiver after the frame number of a packet has been observed.
pub open spec fn observed(m: UdpModel, header: UdpVideoPacketHeader, quiet: bool, now: u64) -> UdpModel {
    match m.last_observed {
        Some(last) => {
            let next = gaps_opened(m, header, last, quiet, now);
            if header.frame_id <= last {
                next
            } else {
                UdpModel { last_observed: Some(header.frame_id), ..next }
            }
        },
        None => UdpModel { last_observed: Some(header.frame_id), ..m },
    }
}

/// The completed frames that are remembered: those completed less than twice the
/// frame timeout ago.
pub open spec fn remembered(completed: Map<u64, u64>, now: u64, retention_ms: u64) -> Map<u64, u64> {
    completed.restrict(
        Set::new(|id: u64| completed.contains_key(id) && !has_elapsed(completed[id], now, retention_ms)),
    )
}

/// The receiver after a chunk of an open frame.
pub open spec fn chunk_taken(
    m: UdpModel,
    config: UdpServerConfig<String>,
    header: UdpVideoPacketHeader,
    now: u64,
) -> UdpModel {
    let id = header.frame_id;
    let frame = m.frames[id];
    let index = header.chunk_index as int;
    let next = frame.accepted(index, header.payload_len);
    let noted = m.logged_if(
        frame.seen[index],
        UdpEvent::DuplicateChunk { frame_id: id, chunk_index: header.chunk_index },
    );
    if next.complete() {
        UdpModel {
            frames: m.frames.remove(id),
            completed: remembered(
                m.completed.insert(id, now),
                now,
                saturating_product(config.frame_timeout_ms as int, 2),
            ),
            counters: UdpCounters {
                frames_complete: saturating_sum(m.counters.frames_complete as int, 1),
                ..m.counters
            },
            ..noted
        }.logged_if(
            !config.quiet_frames,
            UdpEvent::FrameComplete {
                frame_id: id,
                chunks_seen: next.chunk_count,
                chunk_count: next.chunk_count,
                bytes_seen: next.bytes_seen,
                sender_first_unix_us: next.first_unix_us,
                elapsed_us: (elapsed(next.started, now) / 1000) as u64,
            },
        )
    } else {
        UdpModel { frames: m.frames.insert(id, next), ..noted }
    }
}

/// Whether the packet's frame is open in another shape.
pub open spec fn mismatched(m: UdpModel, header: UdpVideoPacketHeader) -> bool {
    let frame = m.frames[header.frame_id];
    frame.chunk_count != header.chunk_count || frame.frame_size != header.frame_size
}

/// The receiver and the verdict after a packet that carries a chunk.
pub open spec fn chunk_handled(
    m: UdpModel,
    config: UdpServerConfig<String>,
    header: UdpVideoPacketHeader,
    now: u64,
) -> (UdpModel, bool) {
    let counted = UdpModel {
        counters: UdpCounters {
            chunks_total: saturating_sum(m.counters.chunks_total as int, 1),
            bytes_total: saturating_sum(m.counters.bytes_total as int, header.payload_len as int),
            ..m.counters
        },
        ..m
    };
    if m.completed.contains_key(header.frame_id) {
        (
            counted.logged_if(
                config.verbose_chunks,
                UdpEvent::LateCompleteChunk {
                    frame_id: header.frame_id,
                    chunk_index: header.chunk_index,
                },
            ),
            false,
        )
    } else {
        let open = opened(
            counted.logged_if(
                config.verbose_chunks,
                UdpEvent::Chunk {
                    frame_id: header.frame_id,
                    chunk_index: header.chunk_index,
                    chunk_count: header.chunk_count,
                    payload_len: header.payload_len,
                },
            ),
            header,
            OpenKind::Chunk(header.chunk_index),
            config.quiet_frames,
            now,
        );
        if mismatched(open, header) {
            let frame = open.frames[header.frame_id];
            (
                open.logged(
                    UdpEvent::FrameMismatch {
                        frame_id: header.frame_id,
                        expected_chunks: frame.chunk_count,
                        got_chunks: header.chunk_count,
                        expected_size: frame.frame_size,
                        got_size: header.frame_size,
                    },
                ),
                false,
            )
        } else {
            (chunk_taken(open, config, header, now), true)
        }
    }
}

/// The session that a status report after the packet names.
pub open spec fn status_session(m: UdpModel, header: UdpVideoPacketHeader) -> u64 {
    match m.session {
        Some(session_id) => session_id,
        None => header.session_id,
    }
}

/// The receiver and the verdict after a packet that is neither a bye nor a
/// request.
pub open spec fn frame_packet_handled(
    m: UdpModel,
    config: UdpServerConfig<String>,
    header: UdpVideoPacketHeader,
    addr: PeerAddr,
    now: u64,
) -> (UdpModel, Verdict) {
    let entered = if header.packet_type == UDP_PACKET_VIDEO || header.packet_type
        == UDP_PACKET_ANNOUNCE {
        session_entered(m, header.session_id, addr, now)
    } else {
        m
    };
    let every = config.drop_initial_frame_video_every;
    let ruled = initial_drop_applied(entered, every, header);
    if drops_initial(entered.drop_counts, every, header) {
        (
            drop_counted(ruled).logged_if(
                config.verbose_chunks,
                UdpEvent::InitialFrameVideoDrop {
                    frame_id: header.frame_id,
                    chunk_index: header.chunk_index,
                    chunk_count: header.chunk_count,
                },
            ),
            Verdict::Ignored,
        )
    } else if header.chunk_count == 0 || header.chunk_index >= header.chunk_count {
        (
            ruled.logged(
                UdpEvent::BadChunk {
                    frame_id: header.frame_id,
                    chunk_index: header.chunk_index,
                    chunk_count: header.chunk_count,
                },
            ),
            Verdict::Ignored,
        )
    } else {
        let seen = observed(ruled, header, config.quiet_frames, now);
        if header.packet_type == UDP_PACKET_ANNOUNCE {
            let counted = UdpModel {
                counters: UdpCounters {
                    announce_packets_total: saturating_sum(
                        seen.counters.announce_packets_total as int,
                        1,
                    ),
                    ..seen.counters
                },
                ..seen
            };
            (
                opened(counted, header, OpenKind::Announced, config.quiet_frames, now),
                Verdict::Service { session_id: status_session(seen, header) },
            )
        } else {
            let (next, taken) = chunk_handled(seen, config, header, now);
            (
                next,
                if taken {
                    Verdict::Service { session_id: status_session(seen, header) }
                } else {
                    Verdict::Ignored
                },
            )
        }
    }
}

/// The receiver and the verdict after a datagram.
pub open spec fn datagram_handled(
    m: UdpModel,
    config: UdpServerConfig<String>,
    data: Seq<u8>,
    addr: PeerAddr,
    now: u64,
) -> (UdpModel, Verdict) {
    let noted = packet_noted(m, addr, now);
    if config.drop_every != 0 && noted.counters.packets_total % config.drop_every == 0 {
        (
            drop_counted(noted).logged_if(
                config.verbose_chunks,
                UdpEvent::SimulatedDrop {
                    packet_index: noted.counters.packets_total,
                    bytes: data.len() as usize,
                },
            ),
            Verdict::Ignored,
        )
    } else {
        match decoded_udp_packet(data) {
            Err(error) => (
                noted.logged(UdpEvent::BadPacket { peer: addr, bytes: data.len() as usize, error }),
                Verdict::Ignored,
            ),
            Ok(header) => if header.packet_type == UDP_PACKET_BYE {
                (
                    expired(noted, ExpireReason::Bye, now, 0),
                    Verdict::Finished {
                        report_session: if config.status_interval_ms != 0 {
                            Some(status_session(noted, header))
                        } else {
                            None
                        },
                    },
                )
            } else if header.packet_type == UDP_PACKET_NACK {
                (noted, Verdict::Ignored)
            } else {
                frame_packet_handled(noted, config, header, addr, now)
            },
        }
    }
}

// ---------------------------------------------------------------------------
// Requests for missing chunks
// ---------------------------------------------------------------------------

/// Whether the frame asks for its missing chunks now.
pub open spec fn nack_due(config: UdpServerConfig<String>, frame: FrameModel, now: u64) -> bool {
    &&& !frame.complete()
    &&& frame.chunks_seen() > 0 || config.nack_empty_frames
    &&& frame.nack_rounds < config.nack_rounds
    &&& has_elapsed(frame.started, now, config.nack_delay_ms)
    &&& match frame.last_nack {
        Some(last) => has_elapsed(last, now, config.nack_interval_ms),
        None => true,
    }
}

/// The chunks that a request names: the first missing ones, at most `max`.
pub open spec fn requested_chunks(frame: FrameModel, max: u32) -> Seq<u32> {
    let missing = unset_indexes(frame.seen);
    missing.take(if missing.len() < max { missing.len() as int } else { max as int })
}

/// Chunk indexes as the payload of a request.
pub open spec fn index_bytes(indexes: Seq<u32>) -> Seq<u8>
    decreases indexes.len(),
{
    if indexes.len() == 0 {
        seq![]
    } else {
        index_bytes(indexes.drop_last()) + be_bytes(indexes.last() as nat, 4)
    }
}

/// The chunk indexes that a request's payload holds.
pub open spec fn requested_indexes(payload: Seq<u8>) -> Seq<u32> {
    Seq::new(payload.len() / 4, |i: int| field(payload, 4 * i, 4) as u32)
}

/// A request for chunks of a frame.
pub struct NackModel {
    pub frame_id: u64,
    pub missing: u32,
    pub packet: Seq<u8>,
}

pub open spec fn nack_header(
    frame_id: u64,
    frame: FrameModel,
    missing: nat,
    unix_us: u64,
) -> UdpVideoPacketHeader {
    UdpVideoPacketHeader {
        packet_type: UDP_PACKET_NACK,
        session_id: frame.session_id,
        frame_id,
        chunk_index: 0,
        chunk_count: frame.chunk_count,
        frame_size: frame.frame_size,
        payload_len: (missing * 4) as u32,
        sent_unix_us: unix_us,
    }
}

/// The request for a frame's missing chunks.
pub open spec fn nack_for(frame_id: u64, frame: FrameModel, max: u32, unix_us: u64) -> NackModel {
    let chunks = requested_chunks(frame, max);
    NackModel {
        frame_id,
        missing: chunks.len() as u32,
        packet: packet_bytes(nack_header(frame_id, frame, chunks.len(), unix_us), index_bytes(chunks)),
    }
}

/// The requests that are due, by frame.
pub open spec fn due_nacks(m: UdpModel, config: UdpServerConfig<String>, now: u64, unix_us: u64) -> Seq<
    NackModel,
> {
    if m.peer is None {
        seq![]
    } else {
        sorted(m.frames.dom()).filter(|id: u64| nack_due(config, m.frames[id], now)).map_values(
            |id: u64| nack_for(id, m.frames[id], config.nack_max_chunks, unix_us),
        )
    }
}

/// The receiver after a request for a frame's chunks has been sent.
pub open spec fn nack_recorded(
    m: UdpModel,
    verbose: bool,
    frame_id: u64,
    missing: u32,
    now: u64,
) -> UdpModel {
    let frame = m.frames[frame_id];
    UdpModel {
        frames: m.frames.insert(
            frame_id,
            FrameModel {
                last_nack: Some(now),
                nack_rounds: (frame.nack_rounds + 1) as u32,
                ..frame
            },
        ),
        counters: UdpCounters {
            nack_packets_sent: saturating_sum(m.counters.nack_packets_sent as int, 1),
            nack_chunks_requested: saturating_sum(
                m.counters.nack_chunks_requested as int,
                missing as int,
            ),
            ..m.counters
        },
        ..m
    }.logged_if(
        verbose,
        UdpEvent::NackSent {
            frame_id,
            missing_chunks: missing,
            round: (frame.nack_rounds + 1) as u32,
        },
    )
}

// ---------------------------------------------------------------------------
// Status reports
// ---------------------------------------------------------------------------

/// The report on the receiver's progress.
pub open spec fn status_message(m: UdpModel) -> UdpStatusMsg {
    UdpStatusMsg {
        last_observed_frame_id: match m.last_observed {
            Some(frame_id) => frame_id,
            None => u64::MAX,
        },
        frames_complete: m.counters.frames_complete,
        frames_skipped: m.counters.frames_expired,
        open_frames: (m.frames.dom().len() % 0x1_0000_0000) as u32,
        chunks_total: m.counters.chunks_total,
        announce_packets_total: m.counters.announce_packets_total,
    }
}

pub open spec fn status_header(m: UdpModel, session_id: u64, unix_us: u64) -> UdpVideoPacketHeader {
    UdpVideoPacketHeader {
        packet_type: UDP_PACKET_STATUS,
        session_id,
        frame_id: status_message(m).last_observed_frame_id,
        chunk_index: 0,
        chunk_count: 0,
        frame_size: 0,
        payload_len: UDP_STATUS_BODY_LEN as u32,
        sent_unix_us: unix_us,
    }
}

/// The packet that reports on the receiver's progress.
pub open spec fn status_packet_bytes(m: UdpModel, session_id: u64, unix_us: u64) -> Seq<u8> {
    packet_bytes(status_header(m, session_id, unix_us), status_bytes(status_message(m)))
}

/// Whether a report is due; an interval of zero turns reports off.
pub open spec fn status_due(interval_ms: u64, last_status_at: u64, now: u64) -> bool {
    interval_ms != 0 && has_elapsed(last_status_at, now, interval_ms)
}

/// The receiver after the due requests have been sent, and whether a report goes
/// out: frames past the timeout are given up, and a due report is taken note of.
pub open spec fn serviced(
    m: UdpModel,
    config: UdpServerConfig<String>,
    session_id: Option<u64>,
    now: u64,
) -> (UdpModel, bool) {
    let next = expired(m, ExpireReason::FrameTimeout, now, config.frame_timeout_ms);
    if m.peer is Some && session_id is Some && status_due(
        config.status_interval_ms,
        m.last_status_at,
        now,
    ) {
        (UdpModel { last_status_at: now, ..next }, true)
    } else {
        (next, false)
    }
}

/// Whether nothing has arrived for the read timeout; zero turns the timeout off.
pub open spec fn read_timeout_due(m: UdpModel, read_timeout_ms: u64, now: u64) -> bool {
    read_timeout_ms != 0 && has_elapsed(m.last_packet_at, now, read_timeout_ms)
}

// ---------------------------------------------------------------------------
// The receiver
// ---------------------------------------------------------------------------

/// A request for chunks of a frame, ready to be sent.
#[derive(Debug)]
pub struct NackPlan {
    pub frame_id: u64,
    pub missing: u32,
    pub packet: Vec<u8>,
}

impl View for NackPlan {
    type V = NackModel;

    open spec fn view(&self) -> NackModel {
        NackModel { frame_id: self.frame_id, missing: self.missing, packet: self.packet@ }
    }
}

/// How long the socket waits for a datagram, in milliseconds; for ever where
/// there is no limit.
pub fn socket_timeout_ms(config: &UdpServerConfig<String>) -> (timeout: Option<u64>)
    ensures
        timeout == if config.nack_rounds != 0 {
            Some(
                if config.nack_interval_ms < 1 {
                    1u64
                } else if config.nack_interval_ms > 100 {
                    100u64
                } else {
                    config.nack_interval_ms
                },
            )
        } else if config.read_timeout_ms != 0 {
            Some(config.read_timeout_ms)
        } else {
            None
        },
{
    if config.nack_rounds != 0 {
        if config.nack_interval_ms < 1 {
            Some(1)
        } else if config.nack_interval_ms > 100 {
            Some(100)
        } else {
            Some(config.nack_interval_ms)
        }
    } else if config.read_timeout_ms != 0 {
        Some(config.read_timeout_ms)
    } else {
        None
    }
}

/// What [`unset_indexes`] gives of a prefix is a prefix.
proof fn lemma_unset_prefix(marks: Seq<bool>, upto: int)
    requires
        0 <= upto <= marks.len(),
    ensures
        unset_indexes(marks.take(upto)).len() <= unset_indexes(marks).len(),
        unset_indexes(marks).take(unset_indexes(marks.take(upto)).len() as int) == unset_indexes(
            marks.take(upto),
        ),
    decreases marks.len() - upto,
{
    if upto == marks.len() {
        assert(marks.take(upto) =~= marks);
        let all = unset_indexes(marks);
        assert(all.take(all.len() as int) =~= all);
    } else {
        lemma_unset_prefix(marks, upto + 1);
        assert(marks.take(upto + 1).drop_last() =~= marks.take(upto));
        let short = unset_indexes(marks.take(upto));
        let long = unset_indexes(marks.take(upto + 1));
        assert(long.take(short.len() as int) =~= short);
        assert(unset_indexes(marks).take(short.len() as int) =~= unset_indexes(marks).take(
            long.len() as int,
        ).take(short.len() as int));
    }
}

/// The first missing chunks of a frame, at most `max`.
fn missing_chunks(frame: &FrameRxState, max: u32) -> (missing: Vec<u32>)
    requires
        frame.pending(),
        max > 0,
    ensures
        missing@ == requested_chunks(frame@, max),
        0 < missing.len() <= max,
{
    let mut missing: Vec<u32> = Vec::new();
    let ghost marks = frame.seen@;
    let mut index: u32 = 0;
    assert(marks.take(0) =~= seq![]);
    assert(missing@ =~= unset_indexes(marks.take(0)));
    proof {
        lemma_unset_indexes(marks);
    }
    while index < frame.chunk_count
        invariant
            index <= frame.chunk_count,
            frame.seen@ == marks,
            marks.len() == frame.chunk_count,
            missing@ == unset_indexes(marks.take(index as int)),
            missing.len() < max,
            max > 0,
            frame@.seen == marks,
        decreases frame.chunk_count - index,
    {
        proof {
            assert(marks.take(index + 1).drop_last() =~= marks.take(index as int));
            assert(marks.take(index + 1).last() == marks[index as int]);
        }
        if !frame.seen[index as usize] {
            missing.push(index);
            if missing.len() >= max as usize {
                proof {
                    lemma_unset_prefix(marks, index + 1);
                }
                return missing;
            }
        }
        index += 1;
    }
    proof {
        assert(marks.take(index as int) =~= marks);
        let all = unset_indexes(marks);
        assert(all.take(all.len() as int) =~= all);
    }
    missing
}

/// Chunk indexes as the payload of a request.
fn index_payload(indexes: &[u32]) -> (payload: Vec<u8>)
    requires
        indexes.len() * 4 <= MAX_UDP_PACKET_LEN,
    ensures
        payload@ == index_bytes(indexes@),
        payload.len() == indexes.len() * 4,
{
    broadcast use lemma_be_len;

    let mut payload: Vec<u8> = Vec::new();
    let mut i: usize = 0;
    assert(indexes@.take(0) =~= seq![]);
    assert(payload@ =~= index_bytes(indexes@.take(0)));
    while i < indexes.len()
        invariant
            i <= indexes.len(),
            payload@ == index_bytes(indexes@.take(i as int)),
            payload.len() == i * 4,
        decreases indexes.len() - i,
    {
        push_be32(&mut payload, indexes[i]);
        proof {
            lemma_be_len(indexes@[i as int] as nat, 4);
        }
        assert(indexes@.take(i + 1).drop_last() =~= indexes@.take(i as int));
        i += 1;
    }
    assert(indexes@.take(i as int) =~= indexes@);
    payload
}

/// A UDP receiver. Times are readings of the monotonic clock.
#[derive(Debug)]
pub struct UdpReceiver {
    frames: BTreeMap<u64, FrameRxState>,
    completed: BTreeMap<u64, u64>,
    drop_counts: BTreeMap<u64, u32>,
    peer: Option<PeerAddr>,
    session: Option<u64>,
    last_observed: Option<u64>,
    last_status_at: u64,
    last_packet_at: u64,
    counters: UdpCounters,
    log: Vec<UdpEvent>,
}

impl View for UdpReceiver {
    type V = UdpModel;

    closed spec fn view(&self) -> UdpModel {
        UdpModel {
            frames: frame_models(self.frames@),
            completed: self.completed@,
            drop_counts: self.drop_counts@,
            peer: self.peer,
            session: self.session,
            last_observed: self.last_observed,
            last_status_at: self.last_status_at,
            last_packet_at: self.last_packet_at,
            counters: self.counters,
            log: self.log@,
        }
    }
}

impl UdpReceiver {
    /// The counters of each open frame fit its marks, and the model is sound.
    pub closed spec fn wf(&self) -> bool {
        &&& all_pending(self.frames@)
        &&& self@.wf()
    }

    pub proof fn lemma_wf(&self)
        requires
            self.wf(),
        ensures
            self@.wf(),
    {
    }

    pub fn new(now: u64) -> (receiver: UdpReceiver)
        ensures
            receiver.wf(),
            receiver@ == fresh_receiver(now),
    {
        let receiver = UdpReceiver {
            frames: BTreeMap::new(),
            completed: BTreeMap::new(),
            drop_counts: BTreeMap::new(),
            peer: None,
            session: None,
            last_observed: None,
            last_status_at: now,
            last_packet_at: now,
            counters: UdpCounters {
                packets_total: 0,
                packets_dropped: 0,
                chunks_total: 0,
                bytes_total: 0,
                frames_complete: 0,
                frames_expired: 0,
                announce_packets_total: 0,
                synthetic_frames_opened: 0,
                nack_packets_sent: 0,
                nack_chunks_requested: 0,
                status_packets_sent: 0,
            },
            log: Vec::new(),
        };
        assert(frame_models(receiver.frames@) =~= Map::empty());
        assert(receiver.log@ =~= seq![]);
        receiver
    }

    /// Gives up the frames that have been open for at least the timeout.
    fn expire_udp_frames(&mut self, reason: ExpireReason, now: u64, timeout_ms: u64)
        requires
            old(self).wf(),
            old(self)@.has_room(),
        ensures
            final(self).wf(),
            final(self)@ == expired(old(self)@, reason, now, timeout_ms),
            final(self)@.has_room(),
    {
        broadcast use {
            vstd::std_specs::btree::group_btree_axioms,
            lemma_models_remove,
            lemma_models_dom,
        };

        let ghost m = self@;
        let ids = sorted_keys(&self.frames);
        let ghost all = ids@;
        let ghost due = |id: u64| has_elapsed(m.frames[id].started, now, timeout_ms);
        let mut gone: Vec<u64> = Vec::new();
        assert(all.take(0).filter(due) =~= seq![]) by {
            reveal(Seq::filter);
        }
        let mut i: usize = 0;
        while i < ids.len()
            invariant
                i <= ids.len(),
                ids@ == all,
                all == sorted(m.frames.dom()),
                lists(all, m.frames.dom()),
                m == self@,
                self.wf(),
                due == (|id: u64| has_elapsed(m.frames[id].started, now, timeout_ms)),
                gone@ == all.take(i as int).filter(due),
            decreases ids.len() - i,
        {
            let id: u64 = ids[i];
            assert(all.to_set().contains(id));
            proof {
                lemma_filter_step(all, due, i as int);
            }
            match self.frames.get(&id) {
                Some(frame) => {
                    if elapsed_at_least(frame.started, now, timeout_ms) {
                        gone.push(id);
                    }
                },
                None => {},
            }
            i += 1;
        }
        assert(all.take(all.len() as int) =~= all);
        let ghost lost = expired_ids(m.frames, now, timeout_ms);
        assert(gone@ == lost);
        proof {
            lemma_filter_of_listing(all, m.frames.dom(), due);
        }
        let mut k: usize = 0;
        assert(m.frames.remove_keys(lost.take(0).to_set()) =~= m.frames);
        assert(m.log + lost.take(0).map_values(|id: u64| expired_event(reason, id, m.frames[id], now))
            =~= m.log);
        while k < gone.len()
            invariant
                k <= gone.len(),
                gone@ == lost,
                ascending(lost),
                forall|j: int| 0 <= j < lost.len() ==> m.frames.contains_key(#[trigger] lost[j]),
                m.wf(),
                all_pending(self.frames@),
                frame_models(self.frames@) == m.frames.remove_keys(lost.take(k as int).to_set()),
                self.log@ == m.log + lost.take(k as int).map_values(
                    |id: u64| expired_event(reason, id, m.frames[id], now),
                ),
                self@ == (UdpModel {
                    frames: frame_models(self.frames@),
                    log: self.log@,
                    ..m
                }),
            decreases gone.len() - k,
        {
            let id: u64 = gone[k];
            let ghost before = lost.take(k as int);
            let ghost after = lost.take(k + 1);
            proof {
                assert(lost[k as int] == id);
                if before.to_set().contains(id) {
                    let j = choose|j: int| 0 <= j < before.len() && before[j] == id;
                    assert(lost[j] < lost[k as int]);
                }
                assert(frame_models(self.frames@).contains_key(id));
            }
            let ghost held = self.frames@;
            if let Some(frame) = self.frames.remove(&id) {
                assert(frame_models(held)[id] == held[id]@);
                assert(frame@ == m.frames[id]);
                proof {
                    lemma_count_bounds(frame.seen@);
                }
                self.log.push(
                    UdpEvent::FrameExpired {
                        reason,
                        frame_id: id,
                        chunks_seen: frame.chunks_seen,
                        chunk_count: frame.chunk_count,
                        missing_chunks: frame.chunk_count.saturating_sub(frame.chunks_seen),
                        bytes_seen: frame.bytes_seen,
                        frame_size: frame.frame_size,
                        elapsed_us: elapsed_us(frame.started, now),
                    },
                );
            }
            proof {
                assert(after.to_set() =~= before.to_set().insert(id)) by {
                    assert(after =~= before.push(id));
                    assert forall|other: u64| after.to_set().contains(other) == before.to_set().insert(
                        id,
                    ).contains(other) by {
                        if before.to_set().contains(other) {
                            let j = choose|j: int| 0 <= j < before.len() && before[j] == other;
                            assert(after[j] == other);
                        }
                        if other == id {
                            assert(after[k as int] == id);
                        }
                    }
                }
                assert(held.contains_key(id));
                assert(self.frames@ =~= held.remove(id));
                lemma_models_remove(held, id);
                assert(frame_models(self.frames@) =~= m.frames.remove_keys(after.to_set()));
                assert(self.log@ =~= m.log + after.map_values(
                    |id: u64| expired_event(reason, id, m.frames[id], now),
                ));
            }
            k += 1;
        }
        proof {
            assert(lost.take(lost.len() as int) =~= lost);
            vstd::set_lib::lemma_len_subset(lost.to_set(), m.frames.dom());
            lost.unique_seq_to_set();
            assert(frame_models(self.frames@).dom() =~= m.frames.dom().difference(lost.to_set()));
            let kept = m.frames.dom().difference(lost.to_set());
            vstd::set_lib::lemma_set_disjoint_lens(kept, lost.to_set());
            assert(kept + lost.to_set() =~= m.frames.dom());
        }
        self.counters.frames_expired = self.counters.frames_expired + gone.len() as u64;
    }

    /// Opens the header's frame, unless it is open or completed; returns whether
    /// it was opened.
    fn open_udp_frame_state(
        &mut self,
        header: &UdpVideoPacketHeader,
        kind: OpenKind,
        quiet: bool,
        now: u64,
    ) -> (fresh: bool)
        requires
            old(self).wf(),
            header.chunk_count > 0,
        ensures
            final(self).wf(),
            final(self)@ == opened(old(self)@, *header, kind, quiet, now),
            fresh == can_open(old(self)@, header.frame_id),
    {
        broadcast use {
            vstd::std_specs::btree::group_btree_axioms,
            lemma_models_insert,
            lemma_models_dom,
        };

        assert(frame_models(self.frames@).contains_key(header.frame_id) == self.frames@.contains_key(
            header.frame_id,
        ));
        if self.completed.contains_key(&header.frame_id) || self.frames.contains_key(&header.frame_id) {
            return false;
        }
        let frame = FrameRxState::open(
            header.session_id,
            header.frame_size,
            header.chunk_count,
            header.sent_unix_us,
            now,
        );
        self.frames.insert(header.frame_id, frame);
        if !quiet {
            self.log.push(
                UdpEvent::FrameOpened {
                    kind,
                    frame_id: header.frame_id,
                    chunk_count: header.chunk_count,
                    frame_size: header.frame_size,
                },
            );
        }
        true
    }

    /// Opens the frames between the last one observed and the header's, at most
    /// 120 of them.
    fn open_udp_frame_gaps(
        &mut self,
        header: &UdpVideoPacketHeader,
        last_frame_id: u64,
        quiet: bool,
        now: u64,
    )
        requires
            old(self).wf(),
            header.chunk_count > 0,
        ensures
            final(self).wf(),
            final(self)@ == gaps_opened(old(self)@, *header, last_frame_id, quiet, now),
    {
        let gap_start: u64 = last_frame_id.saturating_add(1);
        if header.frame_id <= gap_start {
            return;
        }
        let limit: u64 = gap_start.saturating_add(MAX_SYNTHETIC_GAP_FRAMES);
        let capped_end: u64 = if limit < header.frame_id { limit } else { header.frame_id };
        let ghost m = self@;
        assert(capped_end == gap_end(last_frame_id, header.frame_id));
        let mut count: u64 = 0;
        let mut frame_id: u64 = gap_start;
        while frame_id < capped_end
            invariant
                gap_start <= frame_id <= capped_end,
                header.chunk_count > 0,
                self.wf(),
                opened_range(m, *header, gap_start as int, frame_id as int, quiet, now) == (
                    self@,
                    count as nat,
                ),
                count <= frame_id - gap_start,
            decreases capped_end - frame_id,
        {
            let gap = UdpVideoPacketHeader { frame_id, chunk_index: 0, ..*header };
            if self.open_udp_frame_state(&gap, OpenKind::Gap, quiet, now) {
                count = count + 1;
            }
            frame_id = frame_id + 1;
        }
        if capped_end < header.frame_id && !quiet {
            self.log.push(
                UdpEvent::FrameGapCapped {
                    gap_start,
                    gap_end: header.frame_id,
                    opened: count,
                    cap: MAX_SYNTHETIC_GAP_FRAMES,
                },
            );
        }
        self.counters.synthetic_frames_opened =
        self.counters.synthetic_frames_opened.saturating_add(count);
    }

    /// Forgets the frames completed at least `retention_ms` ago.
    fn prune_udp_completed_frames(&mut self, retention_ms: u64, now: u64)
        requires
            old(self).wf(),
        ensures
            final(self).wf(),
            final(self)@ == (UdpModel {
                completed: remembered(old(self)@.completed, now, retention_ms),
                ..old(self)@
            }),
    {
        broadcast use vstd::std_specs::btree::group_btree_axioms;

        let ghost m = self@;
        let ids = sorted_keys(&self.completed);
        let mut i: usize = 0;
        while i < ids.len()
            invariant
                i <= ids.len(),
                lists(ids@, m.completed.dom()),
                all_pending(self.frames@),
                m.wf(),
                self@ == (UdpModel { completed: self.completed@, ..m }),
                forall|id: u64| #[trigger]
                    self.completed@.contains_key(id) ==> m.completed.contains_key(id)
                        && self.completed@[id] == m.completed[id],
                forall|id: u64| #[trigger]
                    m.completed.contains_key(id) ==> (self.completed@.contains_key(id) <==> !(
                    ids@.take(i as int).contains(id) && has_elapsed(m.completed[id], now, retention_ms))),
            decreases ids.len() - i,
        {
            let id: u64 = ids[i];
            let ghost before = self.completed@;
            let ghost done = ids@.take(i as int);
            proof {
                assert(ids@.to_set().contains(id));
                assert(m.completed.contains_key(id));
                if done.contains(id) {
                    let j = done.index_of(id);
                    assert(ids@[j] < ids@[i as int]);
                }
            }
            let stale = match self.completed.get(&id) {
                Some(at) => elapsed_at_least(*at, now, retention_ms),
                None => false,
            };
            if stale {
                self.completed.remove(&id);
            }
            proof {
                let more = ids@.take(i + 1);
                assert(more =~= done.push(id));
                assert forall|other: u64| more.contains(other) == (done.contains(other) || other == id) by {
                    if done.contains(other) {
                        let j = done.index_of(other);
                        assert(more[j] == other);
                    }
                    if other == id {
                        assert(more[i as int] == id);
                    }
                }
            }
            i += 1;
        }
        proof {
            assert(ids@.take(i as int) =~= ids@);
            let kept = remembered(m.completed, now, retention_ms);
            assert forall|id: u64| kept.contains_key(id) == self.completed@.contains_key(id) by {
                if m.completed.contains_key(id) {
                    assert(ids@.to_set().contains(id));
                    assert(ids@.contains(id));
                }
            }
            assert(self.completed@ =~= kept);
        }
    }

    /// Enters the session of a packet.
    fn enter_session(&mut self, session_id: u64, addr: PeerAddr, now: u64)
        requires
            old(self).wf(),
            old(self)@.has_room(),
        ensures
            final(self).wf(),
            final(self)@ == session_entered(old(self)@, session_id, addr, now),
    {
        if self.session == Some(session_id) {
            if self.peer != Some(addr) {
                self.peer = Some(addr);
                self.log.push(UdpEvent::PeerUpdate { addr, session_id });
            }
        } else {
            if self.session.is_some() {
                self.expire_udp_frames(ExpireReason::SessionReplaced, now, 0);
                self.completed.clear();
                self.drop_counts.clear();
                self.last_observed = None;
            }
            self.session = Some(session_id);
            self.peer = Some(addr);
            self.log.push(UdpEvent::Session { addr, session_id });
        }
    }

    /// Takes a chunk of an open frame.
    fn take_chunk(&mut self, config: &UdpServerConfig<String>, header: &UdpVideoPacketHeader, now: u64)
        requires
            old(self).wf(),
            old(self)@.frames.contains_key(header.frame_id),
            !mismatched(old(self)@, *header),
            header.chunk_index < header.chunk_count,
        ensures
            final(self).wf(),
            final(self)@ == chunk_taken(old(self)@, *config, *header, now),
    {
        broadcast use {
            vstd::std_specs::btree::group_btree_axioms,
            lemma_models_insert,
            lemma_models_remove,
            lemma_models_dom,
        };

        let ghost m = self@;
        let id: u64 = header.frame_id;
        assert(frame_models(self.frames@).contains_key(id) == self.frames@.contains_key(id));
        let ghost held = self.frames@;
        if let Some(mut frame) = self.frames.remove(&id) {
            assert(frame_models(held)[id] == held[id]@);
            assert(frame@ == m.frames[id]);
            let ghost next = m.frames[id].accepted(header.chunk_index as int, header.payload_len);
            if frame.accept(header.chunk_index, header.payload_len) {
                self.log.push(
                    UdpEvent::DuplicateChunk { frame_id: id, chunk_index: header.chunk_index },
                );
            }
            proof {
                lemma_count_bounds(frame.seen@);
            }
            if frame.chunks_seen == frame.chunk_count {
                self.counters.frames_complete = self.counters.frames_complete.saturating_add(1);
                self.completed.insert(id, now);
                assert(self@.completed == m.completed.insert(id, now));
                self.prune_udp_completed_frames(saturating_mul(config.frame_timeout_ms, 2), now);
                if !config.quiet_frames {
                    self.log.push(
                        UdpEvent::FrameComplete {
                            frame_id: id,
                            chunks_seen: frame.chunks_seen,
                            chunk_count: frame.chunk_count,
                            bytes_seen: frame.bytes_seen,
                            sender_first_unix_us: frame.first_unix_us,
                            elapsed_us: elapsed_us(frame.started, now),
                        },
                    );
                }
            } else {
                self.frames.insert(id, frame);
                assert(frame_models(self.frames@) =~= m.frames.insert(id, next));
            }
        }
    }

    /// Handles a packet that carries a chunk; returns whether the chunk was taken.
    fn handle_chunk(
        &mut self,
        config: &UdpServerConfig<String>,
        header: &UdpVideoPacketHeader,
        now: u64,
    ) -> (taken: bool)
        requires
            old(self).wf(),
            header.chunk_index < header.chunk_count,
        ensures
            final(self).wf(),
            (final(self)@, taken) == chunk_handled(old(self)@, *config, *header, now),
    {
        broadcast use vstd::std_specs::btree::group_btree_axioms;

        self.counters.chunks_total = self.counters.chunks_total.saturating_add(1);
        self.counters.bytes_total = self.counters.bytes_total.saturating_add(header.payload_len as u64);
        if self.completed.contains_key(&header.frame_id) {
            if config.verbose_chunks {
                self.log.push(
                    UdpEvent::LateCompleteChunk {
                        frame_id: header.frame_id,
                        chunk_index: header.chunk_index,
                    },
                );
            }
            return false;
        }
        if config.verbose_chunks {
            self.log.push(
                UdpEvent::Chunk {
                    frame_id: header.frame_id,
                    chunk_index: header.chunk_index,
                    chunk_count: header.chunk_count,
                    payload_len: header.payload_len,
                },
            );
        }
        assert(self@.frames == old(self)@.frames && self@.completed == old(self)@.completed);
        assert(self@.wf());
        self.open_udp_frame_state(header, OpenKind::Chunk(header.chunk_index), config.quiet_frames, now);
        let ghost open = self@;
        assert(open.frames.contains_key(header.frame_id));
        assert(frame_models(self.frames@).contains_key(header.frame_id) == self.frames@.contains_key(
            header.frame_id,
        ));
        if let Some(frame) = self.frames.get(&header.frame_id) {
            assert(frame_models(self.frames@)[header.frame_id] == frame@);
            if frame.chunk_count != header.chunk_count || frame.frame_size != header.frame_size {
                let event = UdpEvent::FrameMismatch {
                    frame_id: header.frame_id,
                    expected_chunks: frame.chunk_count,
                    got_chunks: header.chunk_count,
                    expected_size: frame.frame_size,
                    got_size: header.frame_size,
                };
                self.log.push(event);
                return false;
            }
        }
        self.take_chunk(config, header, now);
        true
    }

    /// Handles a packet that is neither a bye nor a request.
    fn handle_frame_packet(
        &mut self,
        config: &UdpServerConfig<String>,
        header: &UdpVideoPacketHeader,
        addr: PeerAddr,
        now: u64,
    ) -> (verdict: Verdict)
        requires
            old(self).wf(),
            old(self)@.has_room(),
        ensures
            final(self).wf(),
            (final(self)@, verdict) == frame_packet_handled(old(self)@, *config, *header, addr, now),
    {
        if header.packet_type == UDP_PACKET_VIDEO || header.packet_type == UDP_PACKET_ANNOUNCE {
            self.enter_session(header.session_id, addr, now);
        }
        if should_drop_initial_frame_video(config, header, &mut self.drop_counts) {
            self.counters.packets_dropped = self.counters.packets_dropped.saturating_add(1);
            if config.verbose_chunks {
                self.log.push(
                    UdpEvent::InitialFrameVideoDrop {
                        frame_id: header.frame_id,
                        chunk_index: header.chunk_index,
                        chunk_count: header.chunk_count,
                    },
                );
            }
            return Verdict::Ignored;
        }
        if header.chunk_count == 0 || header.chunk_index >= header.chunk_count {
            self.log.push(
                UdpEvent::BadChunk {
                    frame_id: header.frame_id,
                    chunk_index: header.chunk_index,
                    chunk_count: header.chunk_count,
                },
            );
            return Verdict::Ignored;
        }
        match self.last_observed {
            Some(last) => {
                self.open_udp_frame_gaps(header, last, config.quiet_frames, now);
                let ghost gapped = self@;
                if header.frame_id > last {
                    self.last_observed = Some(header.frame_id);
                }
                assert(self@.frames == gapped.frames && self@.completed == gapped.completed);
                assert(self@.wf());
            },
            None => {
                self.last_observed = Some(header.frame_id);
            },
        }
        let session_id: u64 = match self.session {
            Some(session_id) => session_id,
            None => header.session_id,
        };
        if header.packet_type == UDP_PACKET_ANNOUNCE {
            self.counters.announce_packets_total =
            self.counters.announce_packets_total.saturating_add(1);
            self.open_udp_frame_state(header, OpenKind::Announced, config.quiet_frames, now);
            return Verdict::Service { session_id };
        }
        if self.handle_chunk(config, header, now) {
            Verdict::Service { session_id }
        } else {
            Verdict::Ignored
        }
    }

    /// Handles a datagram from `addr`.
    pub fn on_datagram(
        &mut self,
        config: &UdpServerConfig<String>,
        data: &[u8],
        addr: PeerAddr,
        now: u64,
    ) -> (verdict: Verdict)
        requires
            old(self).wf(),
            old(self)@.has_room(),
        ensures
            final(self).wf(),
            (final(self)@, verdict) == datagram_handled(old(self)@, *config, data@, addr, now),
    {
        self.last_packet_at = now;
        self.counters.packets_total = self.counters.packets_total.saturating_add(1);
        if self.peer.is_none() {
            self.peer = Some(addr);
            self.log.push(UdpEvent::Peer { addr });
        }
        assert(self@ == packet_noted(old(self)@, addr, now));
        if config.drop_every != 0 && self.counters.packets_total % config.drop_every == 0 {
            self.counters.packets_dropped = self.counters.packets_dropped.saturating_add(1);
            if config.verbose_chunks {
                self.log.push(
                    UdpEvent::SimulatedDrop {
                        packet_index: self.counters.packets_total,
                        bytes: data.len(),
                    },
                );
            }
            return Verdict::Ignored;
        }
        match decode_udp_packet(data) {
            Err(error) => {
                self.log.push(UdpEvent::BadPacket { peer: addr, bytes: data.len(), error });
                Verdict::Ignored
            },
            Ok((header, _payload)) => {
                if header.packet_type == UDP_PACKET_BYE {
                    let session_id: u64 = match self.session {
                        Some(session_id) => session_id,
                        None => header.session_id,
                    };
                    self.expire_udp_frames(ExpireReason::Bye, now, 0);
                    if config.status_interval_ms != 0 {
                        Verdict::Finished { report_session: Some(session_id) }
                    } else {
                        Verdict::Finished { report_session: None }
                    }
                } else if header.packet_type == UDP_PACKET_NACK {
                    Verdict::Ignored
                } else {
                    self.handle_frame_packet(config, &header, addr, now)
                }
            },
        }
    }

    /// The requests that are due, by frame.
    pub fn plan_nacks(&self, config: &UdpServerConfig<String>, now: u64, unix_us: u64) -> (plans: Vec<
        NackPlan,
    >)
        requires
            self.wf(),
            udp_server_fault(*config) is None,
        ensures
            plans@.map_values(|plan: NackPlan| plan@) == due_nacks(self@, *config, now, unix_us),
            forall|i: int|
                0 <= i < plans@.len() ==> self@.frames.contains_key(#[trigger] plans@[i].frame_id)
                    && self@.frames[plans@[i].frame_id].nack_rounds < config.nack_rounds,
            forall|i: int, j: int|
                0 <= i < j < plans@.len() ==> plans@[i].frame_id < plans@[j].frame_id,
            forall|id: u64|
                self@.peer is Some && #[trigger] self@.frames.contains_key(id) && nack_due(
                    *config,
                    self@.frames[id],
                    now,
                ) ==> exists|i: int| 0 <= i < plans@.len() && (#[trigger] plans@[i]).frame_id == id,
            self@.peer is None ==> plans@.len() == 0,
    {
        broadcast use {vstd::std_specs::btree::group_btree_axioms, lemma_models_dom};

        let mut plans: Vec<NackPlan> = Vec::new();
        assert(plans@.map_values(|plan: NackPlan| plan@) =~= seq![]);
        if self.peer.is_none() {
            return plans;
        }
        let ghost m = self@;
        let ids = sorted_keys(&self.frames);
        let ghost all = ids@;
        let ghost due = |id: u64| nack_due(*config, m.frames[id], now);
        let ghost make = |id: u64| nack_for(id, m.frames[id], config.nack_max_chunks, unix_us);
        let ghost show = |plan: NackPlan| plan@;
        assert(all.take(0).filter(due).map_values(make) =~= seq![]) by {
            reveal(Seq::filter);
        }
        let mut i: usize = 0;
        while i < ids.len()
            invariant
                i <= ids.len(),
                ids@ == all,
                lists(all, m.frames.dom()),
                m == self@,
                self.wf(),
                udp_server_fault(*config) is None,
                due == (|id: u64| nack_due(*config, m.frames[id], now)),
                make == (|id: u64| nack_for(id, m.frames[id], config.nack_max_chunks, unix_us)),
                show == (|plan: NackPlan| plan@),
                plans@.map_values(show) == all.take(i as int).filter(due).map_values(make),
                forall|k: int|
                    0 <= k < plans@.len() ==> m.frames.contains_key(#[trigger] plans@[k].frame_id)
                        && m.frames[plans@[k].frame_id].nack_rounds < config.nack_rounds,
                forall|k: int|
                    0 <= k < plans@.len() && i < all.len() ==> (#[trigger] plans@[k]).frame_id < all[i as int],
                forall|k: int, l: int|
                    0 <= k < l < plans@.len() ==> plans@[k].frame_id < plans@[l].frame_id,
            decreases ids.len() - i,
        {
            let id: u64 = ids[i];
            let ghost before = plans@.map_values(show);
            proof {
                assert(all.to_set().contains(id));
                lemma_filter_step(all, due, i as int);
            }
            match self.frames.get(&id) {
                Some(frame) => {
                    assert(frame_models(self.frames@)[id] == frame@);
                    proof {
                        lemma_count_bounds(frame.seen@);
                    }
                    let waited = match frame.last_nack {
                        Some(last) => elapsed_at_least(last, now, config.nack_interval_ms),
                        None => true,
                    };
                    if frame.chunks_seen != frame.chunk_count && (frame.chunks_seen != 0
                        || config.nack_empty_frames) && frame.nack_rounds < config.nack_rounds
                        && elapsed_at_least(frame.started, now, config.nack_delay_ms) && waited {
                        let missing = missing_chunks(frame, config.nack_max_chunks);
                        let payload = index_payload(missing.as_slice());
                        let header = UdpVideoPacketHeader {
                            packet_type: UDP_PACKET_NACK,
                            session_id: frame.session_id,
                            frame_id: id,
                            chunk_index: 0,
                            chunk_count: frame.chunk_count,
                            frame_size: frame.frame_size,
                            payload_len: missing.len() as u32 * 4,
                            sent_unix_us: unix_us,
                        };
                        let packet = udp_packet(&header, payload.as_slice());
                        let plan = NackPlan { frame_id: id, missing: missing.len() as u32, packet };
                        assert(plan@ == make(id));
                        plans.push(plan);
                        assert(plans@.map_values(show) =~= before.push(make(id)));
                        assert(due(id));
                        assert(all.take(i + 1).filter(due).map_values(make) =~= all.take(
                            i as int,
                        ).filter(due).map_values(make).push(make(id)));
                    }
                },
                None => {},
            }
            i += 1;
        }
        assert(all.take(all.len() as int) =~= all);
        proof {
            let wanted = all.filter(due);
            lemma_filter_of_listing(all, m.frames.dom(), due);
            assert forall|id: u64|
                #[trigger] m.frames.contains_key(id) && nack_due(*config, m.frames[id], now) implies exists|
                k: int,
            | 0 <= k < plans@.len() && (#[trigger] plans@[k]).frame_id == id by {
                assert(due(id));
                assert(m.frames.dom().filter(due).contains(id));
                assert(wanted.to_set().contains(id));
                let k = choose|k: int| 0 <= k < wanted.len() && wanted[k] == id;
                assert(plans@.map_values(show)[k] == make(id));
                assert(plans@[k].frame_id == id);
            }
        }
        plans
    }

    /// Takes note that the request for a frame's chunks has been sent.
    pub fn nack_sent(
        &mut self,
        config: &UdpServerConfig<String>,
        frame_id: u64,
        missing: u32,
        now: u64,
    )
        requires
            old(self).wf(),
            old(self)@.frames.contains_key(frame_id),
            old(self)@.frames[frame_id].nack_rounds < u32::MAX,
        ensures
            final(self).wf(),
            final(self)@ == nack_recorded(
                old(self)@,
                config.verbose_chunks,
                frame_id,
                missing,
                now,
            ),
    {
        broadcast use {
            vstd::std_specs::btree::group_btree_axioms,
            lemma_models_insert,
            lemma_models_remove,
            lemma_models_dom,
        };

        let ghost m = self@;
        let ghost held = self.frames@;
        assert(frame_models(held).contains_key(frame_id) == held.contains_key(frame_id));
        if let Some(mut frame) = self.frames.remove(&frame_id) {
            assert(frame_models(held)[frame_id] == held[frame_id]@);
            assert(frame@ == m.frames[frame_id]);
            frame.last_nack = Some(now);
            frame.nack_rounds = frame.nack_rounds + 1;
            self.counters.nack_packets_sent = self.counters.nack_packets_sent.saturating_add(1);
            self.counters.nack_chunks_requested =
            self.counters.nack_chunks_requested.saturating_add(missing as u64);
            if config.verbose_chunks {
                self.log.push(
                    UdpEvent::NackSent {
                        frame_id,
                        missing_chunks: missing,
                        round: frame.nack_rounds,
                    },
                );
            }
            let ghost next = frame@;
            self.frames.insert(frame_id, frame);
            assert(frame_models(self.frames@) =~= m.frames.insert(frame_id, next));
        }
    }

    /// The packet that reports on the receiver's progress.
    pub fn status_packet(&self, session_id: u64, unix_us: u64) -> (packet: Vec<u8>)
        requires
            self.wf(),
        ensures
            packet@ == status_packet_bytes(self@, session_id, unix_us),
    {
        broadcast use {
            vstd::std_specs::btree::group_btree_axioms,
            lemma_models_dom,
            lemma_be_len,
        };

        let status = UdpStatusMsg {
            last_observed_frame_id: match self.last_observed {
                Some(frame_id) => frame_id,
                None => u64::MAX,
            },
            frames_complete: self.counters.frames_complete,
            frames_skipped: self.counters.frames_expired,
            open_frames: (self.frames.len() as u64 % 0x1_0000_0000) as u32,
            chunks_total: self.counters.chunks_total,
            announce_packets_total: self.counters.announce_packets_total,
        };
        assert(status == status_message(self@));
        let header = UdpVideoPacketHeader {
            packet_type: UDP_PACKET_STATUS,
            session_id,
            frame_id: status.last_observed_frame_id,
            chunk_index: 0,
            chunk_count: 0,
            frame_size: 0,
            payload_len: UDP_STATUS_BODY_LEN as u32,
            sent_unix_us: unix_us,
        };
        let mut body: Vec<u8> = vec![0u8; UDP_STATUS_BODY_LEN];
        encode_udp_status(&status, body.as_mut_slice());
        assert(body@ =~= status_bytes(status));
        udp_packet(&header, body.as_slice())
    }

    /// Ends a round of service: gives up frames past the timeout and hands out
    /// the status report, where one is due. Without a session there is none.
    pub fn after_nacks(
        &mut self,
        config: &UdpServerConfig<String>,
        session_id: Option<u64>,
        now: u64,
        unix_us: u64,
    ) -> (report: Option<Vec<u8>>)
        requires
            old(self).wf(),
            old(self)@.has_room(),
        ensures
            final(self).wf(),
            (final(self)@, report is Some) == serviced(old(self)@, *config, session_id, now),
            report matches Some(packet) ==> packet@ == status_packet_bytes(
                final(self)@,
                session_id->0,
                unix_us,
            ),
            final(self)@.has_room(),
    {
        self.expire_udp_frames(ExpireReason::FrameTimeout, now, config.frame_timeout_ms);
        if self.peer.is_none() {
            return None;
        }
        match session_id {
            Some(session_id) => {
                if self.should_send_udp_status(config.status_interval_ms, now) {
                    Some(self.status_packet(session_id, unix_us))
                } else {
                    None
                }
            },
            None => None,
        }
    }

    /// Whether a status report is due; a due one is taken note of.
    fn should_send_udp_status(&mut self, interval_ms: u64, now: u64) -> (due: bool)
        requires
            old(self).wf(),
        ensures
            final(self).wf(),
            due == status_due(interval_ms, old(self)@.last_status_at, now),
            final(self)@ == if due {
                UdpModel { last_status_at: now, ..old(self)@ }
            } else {
                old(self)@
            },
    {
        if interval_ms == 0 || !elapsed_at_least(self.last_status_at, now, interval_ms) {
            return false;
        }
        self.last_status_at = now;
        true
    }

    /// Takes note that a status report has been sent.
    pub fn status_sent(&mut self)
        requires
            old(self).wf(),
        ensures
            final(self).wf(),
            final(self)@ == (UdpModel {
                counters: UdpCounters {
                    status_packets_sent: saturating_sum(
                        old(self)@.counters.status_packets_sent as int,
                        1,
                    ),
                    ..old(self)@.counters
                },
                ..old(self)@
            }),
    {
        self.counters.status_packets_sent = self.counters.status_packets_sent.saturating_add(1);
    }

    /// Whether nothing has arrived for the read timeout; all frames are then
    /// given up.
    pub fn read_timed_out(&mut self, config: &UdpServerConfig<String>, now: u64) -> (due: bool)
        requires
            old(self).wf(),
            old(self)@.has_room(),
        ensures
            final(self).wf(),
            due == read_timeout_due(old(self)@, config.read_timeout_ms, now),
            final(self)@ == if due {
                expired(old(self)@, ExpireReason::ReadTimeout, now, 0)
            } else {
                old(self)@
            },
    {
        if config.read_timeout_ms != 0 && elapsed_at_least(
            self.last_packet_at,
            now,
            config.read_timeout_ms,
        ) {
            self.expire_udp_frames(ExpireReason::ReadTimeout, now, 0);
            true
        } else {
            false
        }
    }

    /// Whether the count of expired frames has room for all open ones.
    pub fn has_room(&self) -> (room: bool)
        ensures
            room == self@.has_room(),
    {
        broadcast use {vstd::std_specs::btree::group_btree_axioms, lemma_models_dom};

        self.frames.len() as u64 <= u64::MAX - self.counters.frames_expired
    }

    pub fn peer(&self) -> (peer: Option<PeerAddr>)
        ensures
            peer == self@.peer,
    {
        self.peer
    }

    pub fn session(&self) -> (session: Option<u64>)
        ensures
            session == self@.session,
    {
        self.session
    }

    pub fn counters(&self) -> (counters: UdpCounters)
        ensures
            counters == self@.counters,
    {
        self.counters
    }

    pub fn open_frames(&self) -> (count: usize)
        ensures
            count == self@.frames.dom().len(),
    {
        broadcast use {vstd::std_specs::btree::group_btree_axioms, lemma_models_dom};

        self.frames.len()
    }

    /// Hands out what has been reported since the last call.
    pub fn take_log(&mut self) -> (log: Vec<UdpEvent>)
        requires
            old(self).wf(),
        ensures
            final(self).wf(),
            log@ == old(self)@.log,
            final(self)@ == (UdpModel { log: seq![], ..old(self)@ }),
    {
        let mut log: Vec<UdpEvent> = Vec::new();
        log.append(&mut self.log);
        assert(log@ =~= old(self)@.log);
        assert(self.log@ =~= seq![]);
        log
    }
}

/// What a filter keeps of one more element.
pub proof fn lemma_filter_step(ids: Seq<u64>, keep: spec_fn(u64) -> bool, at: int)
    requires
        0 <= at < ids.len(),
    ensures
        ids.take(at + 1).filter(keep) == if keep(ids[at]) {
            ids.take(at).filter(keep).push(ids[at])
        } else {
            ids.take(at).filter(keep)
        },
{
    reveal(Seq::filter);
    assert(ids.take(at + 1).drop_last() =~= ids.take(at));
}

/// A filter of an ascending listing lists the members that it keeps.
pub proof fn lemma_filter_of_listing(ids: Seq<u64>, set: Set<u64>, keep: spec_fn(u64) -> bool)
    requires
        lists(ids, set),
    ensures
        lists(ids.filter(keep), set.filter(keep)),
        forall|i: int| 0 <= i < ids.filter(keep).len() ==> set.contains(#[trigger] ids.filter(keep)[i])
            && keep(ids.filter(keep)[i]),
        ids.filter(keep).no_duplicates(),
        ids.filter(keep).to_set().subset_of(set),
{
    lemma_filter_prefix(ids, keep, ids.len() as int);
    assert(ids.take(ids.len() as int) =~= ids);
    let kept = ids.filter(keep);
    assert forall|i: int| 0 <= i < kept.len() implies set.contains(#[trigger] kept[i]) && keep(kept[i]) by {
        assert(ids.contains(kept[i]));
        assert(ids.to_set().contains(kept[i]));
    }
    assert forall|id: u64| kept.to_set().contains(id) == set.filter(keep).contains(id) by {
        if kept.to_set().contains(id) {
            let k = choose|k: int| 0 <= k < kept.len() && kept[k] == id;
            assert(set.contains(kept[k]));
        }
        if set.filter(keep).contains(id) {
            assert(ids.to_set().contains(id));
            let k = choose|k: int| 0 <= k < ids.len() && ids[k] == id;
            assert(kept.contains(ids[k]));
        }
    }
    assert(kept.to_set() =~= set.filter(keep));
}

proof fn lemma_filter_prefix(ids: Seq<u64>, keep: spec_fn(u64) -> bool, upto: int)
    requires
        ascending(ids),
        0 <= upto <= ids.len(),
    ensures
        ascending(ids.take(upto).filter(keep)),
        forall|i: int|
            0 <= i < ids.take(upto).filter(keep).len() ==> keep(#[trigger] ids.take(upto).filter(keep)[i])
                && ids.take(upto).contains(ids.take(upto).filter(keep)[i]),
        forall|i: int|
            0 <= i < upto && keep(#[trigger] ids[i]) ==> ids.take(upto).filter(keep).contains(ids[i]),
    decreases upto,
{
    reveal(Seq::filter);
    if upto > 0 {
        lemma_filter_prefix(ids, keep, upto - 1);
        lemma_filter_step(ids, keep, upto - 1);
        let before = ids.take(upto - 1).filter(keep);
        let after = ids.take(upto).filter(keep);
        let last = ids[upto - 1];
        assert forall|i: int| 0 <= i < after.len() implies keep(#[trigger] after[i]) && ids.take(
            upto,
        ).contains(after[i]) by {
            if i < before.len() {
                assert(after[i] == before[i]);
                assert(ids.take(upto - 1).contains(before[i]));
                let k = ids.take(upto - 1).index_of(before[i]);
                assert(ids.take(upto)[k] == before[i]);
            } else {
                assert(ids.take(upto)[upto - 1] == last);
            }
        }
        assert forall|i: int, j: int| 0 <= i < j < after.len() implies after[i] < after[j] by {
            if j == before.len() {
                assert(before[i] == after[i]);
                assert(ids.take(upto - 1).contains(before[i]));
                let k = ids.take(upto - 1).index_of(before[i]);
                assert(ids[k] < ids[upto - 1]);
            } else {
                assert(before[i] < before[j]);
            }
        }
        assert forall|i: int| 0 <= i < upto && keep(#[trigger] ids[i]) implies after.contains(ids[i]) by {
            if i < upto - 1 {
                assert(before.contains(ids[i]));
                let k = before.index_of(ids[i]);
                assert(after[k] == ids[i]);
            } else {
                assert(after[after.len() - 1] == last);
            }
        }
    }
}

} // verus!
