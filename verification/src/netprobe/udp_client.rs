//! The UDP sender: announces frames, cuts them into packets, keeps the recent
//! ones, answers requests for them and says goodbye, step by step. The caller
//! sends and reads the datagrams.
use std::collections::BTreeMap;
use vstd::prelude::*;
use vstd::slice::slice_to_vec;

use crate::netprobe::clock::{
    elapsed, elapsed_at_least, elapsed_ns, elapsed_us, has_elapsed, saturating_product, saturating_sum,
};
use crate::netprobe::config::{udp_client_fault, UdpClientConfig};
use crate::netprobe::frames::{lemma_sorted_lists, lists, sorted, sorted_keys};
use crate::netprobe::tcp_client::{
    frame_count_target, frame_period_ns, maybe_pace_udp, next_due, pause_due, FrameEvent, FrameSchedule,
};
use crate::netprobe::udp_laws::{law_request_indexes_round_trip, lemma_index_bytes_len};
use crate::netprobe::udp_server::{index_bytes, requested_indexes};
use crate::netprobe::wire::{
    ceil_div, chunk_len, chunk_payload_len, decode_udp_packet, decode_udp_status, decoded_udp_packet,
    div_ceil_u32, fill_payload, get_u32, law_chunks_cover_frame, law_udp_packet_round_trip,
    lemma_ceil_div_bounds, packet_bytes, payload_bytes, status_of, udp_packet, UdpStatusMsg,
    UdpVideoPacketHeader, WireError, UDP_PACKET_ANNOUNCE, UDP_PACKET_BYE, UDP_PACKET_HEADER_LEN,
    UDP_PACKET_NACK, UDP_PACKET_STATUS, UDP_PACKET_VIDEO,
};

verus! {

/// The packets of a frame that was sent, by chunk.
#[derive(Debug)]
pub struct SentUdpFrame {
    pub chunks: Vec<Vec<u8>>,
}

impl View for SentUdpFrame {
    type V = Seq<Seq<u8>>;

    open spec fn view(&self) -> Seq<Seq<u8>> {
        self.chunks@.map_values(|chunk: Vec<u8>| chunk@)
    }
}

#[derive(Clone, Copy, Debug, PartialEq, Eq, Structural)]
pub struct UdpClientStats {
    pub nacks_received: u64,
    pub nack_chunks_requested: u64,
    pub retransmit_packets: u64,
    pub retransmit_bytes: u64,
    pub retransmit_misses: u64,
    pub announce_packets_sent: u64,
    pub statuses_received: u64,
    pub status_frames_complete: u64,
    pub status_frames_skipped: u64,
    pub status_last_observed_frame_id: u64,
}

/// What the sender reports of its frames and of control packets.
#[derive(Clone, Copy, Debug, PartialEq, Eq, Structural)]
pub enum UdpClientEvent {
    Frame(FrameEvent),
    BadControlPacket { bytes: usize, error: WireError },
    StreamStatus(UdpStatusMsg),
    StaleNack { frame_id: u64, session_id: u64 },
    NackCacheMiss { frame_id: u64, requested_chunks: usize },
    NackHandled { frame_id: u64, requested_chunks: usize },
}

/// How many times the packet that ends the session is sent.
pub const BYE_PACKETS: u32 = 3;

/// The time between two looks at the socket while the sender lingers.
pub const LINGER_SLEEP_NS: u64 = 1_000_000;

/// The time after each packet that ends the session.
pub const BYE_SLEEP_NS: u64 = 5_000_000;

/// What a sender does next.
#[derive(Clone, Copy, Debug, PartialEq, Eq, Structural)]
pub enum UdpPhase {
    /// Open the next frame, or leave the frames behind.
    Frame,
    /// Send the next chunk of the frame, or close the frame.
    Video,
    /// Report the chunk that was sent, and pace or look for control packets.
    Sent { index: u32, payload_len: u32 },
    /// Look for control packets after a pause.
    Paced,
    /// Report the frame and wait for the next one.
    Closed,
    /// Look for control packets until the linger time since `since` has passed.
    Linger { since: u64 },
    /// Sleep before the next look.
    Lingered { since: u64 },
    /// Send the packet made at `unix_us` that ends the session, `sent` times so far.
    Bye { sent: u32, unix_us: u64 },
    /// Sleep after such a packet.
    ByeSent { sent: u32, unix_us: u64 },
    /// Nothing is left to do.
    Done,
}

impl UdpPhase {
    /// Whether a frame is being sent.
    pub open spec fn in_frame(self) -> bool {
        self is Video || self is Sent || self is Paced || self is Closed
    }
}

/// What the caller of a sender has to do.
#[derive(Debug, PartialEq, Eq)]
pub enum UdpAction {
    /// Send the announcement of a frame.
    Announce(Vec<u8>),
    /// Send a chunk.
    Video(Vec<u8>),
    /// Read the control packets that have arrived and send what they ask for.
    Drain,
    /// Pause between two chunks.
    Pause { us: u64 },
    /// Sleep.
    Sleep { ns: u64 },
    /// The next frame is late; go on.
    Late,
    /// Send the packet that ends the session.
    Bye { index: u32, packet: Vec<u8> },
    /// The session is over.
    Done,
}

/// What a [`UdpAction`] stands for.
pub enum UdpActionModel {
    Announce(Seq<u8>),
    Video(Seq<u8>),
    Drain,
    Pause { us: u64 },
    Sleep { ns: u64 },
    Late,
    Bye { index: u32, packet: Seq<u8> },
    Done,
}

impl View for UdpAction {
    type V = UdpActionModel;

    open spec fn view(&self) -> UdpActionModel {
        match self {
            UdpAction::Announce(packet) => UdpActionModel::Announce(packet@),
            UdpAction::Video(packet) => UdpActionModel::Video(packet@),
            UdpAction::Drain => UdpActionModel::Drain,
            UdpAction::Pause { us } => UdpActionModel::Pause { us: *us },
            UdpAction::Sleep { ns } => UdpActionModel::Sleep { ns: *ns },
            UdpAction::Late => UdpActionModel::Late,
            UdpAction::Bye { index, packet } => UdpActionModel::Bye { index: *index, packet: packet@ },
            UdpAction::Done => UdpActionModel::Done,
        }
    }
}

/// What a [`UdpSender`] stands for.
pub struct UdpSenderModel {
    pub session_id: u64,
    pub frame_size: u32,
    pub payload_size: u32,
    /// How many frames are kept for requests.
    pub cache_frames: usize,
    /// The packets kept, by frame and chunk.
    pub cache: Map<u64, Seq<Seq<u8>>>,
    pub stats: UdpClientStats,
    pub frames_sent: u64,
    /// The next chunk of the current frame.
    pub next_chunk: u32,
    pub packets_sent: u64,
    pub bytes_sent: u64,
    pub phase: UdpPhase,
    /// When the run began.
    pub started: u64,
    /// When the current frame began.
    pub frame_started: u64,
    /// When the next frame is due.
    pub due: u64,
    pub log: Seq<UdpClientEvent>,
}

impl UdpSenderModel {
    pub open spec fn chunk_count(self) -> int {
        ceil_div(self.frame_size as int, self.payload_size as int)
    }

    /// The header of a chunk.
    pub open spec fn video_header(self, frame_id: u64, index: u32, unix_us: u64) -> UdpVideoPacketHeader {
        UdpVideoPacketHeader {
            packet_type: UDP_PACKET_VIDEO,
            session_id: self.session_id,
            frame_id,
            chunk_index: index,
            chunk_count: self.chunk_count() as u32,
            frame_size: self.frame_size,
            payload_len: chunk_len(self.frame_size as int, self.payload_size as int, index as int) as u32,
            sent_unix_us: unix_us,
        }
    }

    /// The packet of a chunk.
    pub open spec fn video_packet(self, frame_id: u64, index: u32, unix_us: u64) -> Seq<u8> {
        let header = self.video_header(frame_id, index, unix_us);
        packet_bytes(header, payload_bytes(frame_id, index, header.payload_len as nat))
    }

    /// Whether a packet is that of a chunk, sent at some time.
    pub open spec fn is_video_packet(self, packet: Seq<u8>, frame_id: u64, index: u32) -> bool {
        exists|unix_us: u64| packet == #[trigger] self.video_packet(frame_id, index, unix_us)
    }

    /// The sizes are valid, and each packet kept is that of its frame and chunk.
    pub open spec fn wf(self) -> bool {
        &&& self.frame_size > 0
        &&& self.payload_size > 0
        &&& UDP_PACKET_HEADER_LEN + self.payload_size <= 65_507
        &&& self.cache.dom().finite()
        &&& forall|id: u64| #[trigger]
            self.cache.contains_key(id) ==> self.cache[id].len() <= self.chunk_count()
        &&& forall|id: u64, index: int|
            self.cache.contains_key(id) && 0 <= index < self.cache[id].len()
                ==> self.is_video_packet(#[trigger] self.cache[id][index], id, index as u32)
        &&& self.next_chunk <= self.chunk_count()
        &&& self.cache.contains_key(self.frames_sent) ==> self.cache[self.frames_sent].len()
            == self.next_chunk
        &&& forall|id: u64| #[trigger]
            self.cache.contains_key(id) ==> self.cache_frames != 0 && id <= self.frames_sent
        &&& self.phase.in_frame() ==> self.frames_sent < u64::MAX
    }

    pub open spec fn logged_if(self, enabled: bool, event: UdpClientEvent) -> UdpSenderModel {
        if enabled {
            UdpSenderModel { log: self.log.push(event), ..self }
        } else {
            self
        }
    }
}

pub open spec fn zero_stats() -> UdpClientStats {
    UdpClientStats {
        nacks_received: 0,
        nack_chunks_requested: 0,
        retransmit_packets: 0,
        retransmit_bytes: 0,
        retransmit_misses: 0,
        announce_packets_sent: 0,
        statuses_received: 0,
        status_frames_complete: 0,
        status_frames_skipped: 0,
        status_last_observed_frame_id: 0,
    }
}

/// A sender that has sent nothing.
pub open spec fn fresh_sender(config: UdpClientConfig<String>, session_id: u64, now: u64) -> UdpSenderModel {
    UdpSenderModel {
        session_id,
        frame_size: config.frame_size,
        payload_size: config.payload_size,
        cache_frames: config.resend_cache_frames,
        cache: Map::empty(),
        stats: zero_stats(),
        frames_sent: 0,
        next_chunk: 0,
        packets_sent: 0,
        bytes_sent: 0,
        phase: UdpPhase::Frame,
        started: now,
        frame_started: now,
        due: now,
        log: seq![],
    }
}

/// The header of a packet without payload.
pub open spec fn control_header(
    m: UdpSenderModel,
    packet_type: u8,
    chunk_count: u32,
    frame_size: u32,
    unix_us: u64,
) -> UdpVideoPacketHeader {
    UdpVideoPacketHeader {
        packet_type,
        session_id: m.session_id,
        frame_id: m.frames_sent,
        chunk_index: 0,
        chunk_count,
        frame_size,
        payload_len: 0,
        sent_unix_us: unix_us,
    }
}

/// The packet that announces the current frame.
pub open spec fn announcement(m: UdpSenderModel, unix_us: u64) -> Seq<u8> {
    packet_bytes(
        control_header(m, UDP_PACKET_ANNOUNCE, m.chunk_count() as u32, m.frame_size, unix_us),
        seq![],
    )
}

/// The packet that ends the session.
pub open spec fn farewell(m: UdpSenderModel, unix_us: u64) -> Seq<u8> {
    packet_bytes(control_header(m, UDP_PACKET_BYE, 0, 0, unix_us), seq![])
}

/// The sender after an announcement.
pub open spec fn frame_announced(m: UdpSenderModel) -> UdpSenderModel {
    UdpSenderModel {
        stats: UdpClientStats {
            announce_packets_sent: saturating_sum(m.stats.announce_packets_sent as int, 1),
            ..m.stats
        },
        ..m
    }
}

/// The sender at the start of a frame.
pub open spec fn frame_begun(m: UdpSenderModel) -> UdpSenderModel {
    UdpSenderModel {
        next_chunk: 0,
        cache: if m.cache_frames != 0 {
            m.cache.insert(m.frames_sent, seq![])
        } else {
            m.cache
        },
        ..m
    }
}

/// The sender after the packet of the next chunk.
pub open spec fn chunk_emitted(m: UdpSenderModel, unix_us: u64) -> UdpSenderModel {
    let packet = m.video_packet(m.frames_sent, m.next_chunk, unix_us);
    UdpSenderModel {
        next_chunk: (m.next_chunk + 1) as u32,
        cache: if m.cache_frames != 0 && m.cache.contains_key(m.frames_sent) {
            m.cache.insert(m.frames_sent, m.cache[m.frames_sent].push(packet))
        } else {
            m.cache
        },
        packets_sent: saturating_sum(m.packets_sent as int, 1),
        bytes_sent: saturating_sum(
            m.bytes_sent as int,
            chunk_len(m.frame_size as int, m.payload_size as int, m.next_chunk as int),
        ),
        ..m
    }
}

/// The frames kept: the newest `max`.
pub open spec fn newest_ids(ids: Set<u64>, max: usize) -> Seq<u64> {
    let all = sorted(ids);
    all.skip(if all.len() > max { all.len() - max } else { 0 })
}

/// The cache with only the newest `max` frames.
pub open spec fn pruned(cache: Map<u64, Seq<Seq<u8>>>, max: usize) -> Map<u64, Seq<Seq<u8>>> {
    cache.restrict(newest_ids(cache.dom(), max).to_set())
}

/// The sender with only as many frames as it keeps.
pub open spec fn cache_pruned(m: UdpSenderModel) -> UdpSenderModel {
    if m.cache_frames != 0 {
        UdpSenderModel { cache: pruned(m.cache, m.cache_frames), ..m }
    } else {
        m
    }
}

/// The number of frames of a run.
pub open spec fn frame_target(config: UdpClientConfig<String>) -> u64 {
    saturating_product(config.duration_sec as int, config.fps as int)
}

/// The next chunk of the current frame; at the end of the frame the cache is
/// pruned and the socket is looked at once more.
pub open spec fn chunk_step(m: UdpSenderModel, unix_us: u64) -> (UdpSenderModel, UdpActionModel) {
    if m.next_chunk < m.chunk_count() {
        let header = m.video_header(m.frames_sent, m.next_chunk, unix_us);
        (
            UdpSenderModel {
                phase: UdpPhase::Sent { index: m.next_chunk, payload_len: header.payload_len },
                ..chunk_emitted(m, unix_us)
            },
            UdpActionModel::Video(m.video_packet(m.frames_sent, m.next_chunk, unix_us)),
        )
    } else {
        (UdpSenderModel { phase: UdpPhase::Closed, ..cache_pruned(m) }, UdpActionModel::Drain)
    }
}

/// The next frame is announced, where that is asked for, and its chunks follow;
/// after the last frame the sender lingers.
pub open spec fn frame_step(m: UdpSenderModel, config: UdpClientConfig<String>, now: u64, unix_us: u64) -> (
    UdpSenderModel,
    UdpActionModel,
) {
    if m.frames_sent < frame_target(config) {
        let begun = UdpSenderModel { phase: UdpPhase::Video, frame_started: now, ..frame_begun(m) }.logged_if(
            !config.quiet_frames,
            UdpClientEvent::Frame(
                FrameEvent::Start {
                    frame_id: m.frames_sent,
                    chunk_count: m.chunk_count() as u32,
                    frame_size: m.frame_size,
                },
            ),
        );
        if config.announce_frames {
            (frame_announced(begun), UdpActionModel::Announce(announcement(m, unix_us)))
        } else {
            chunk_step(begun, unix_us)
        }
    } else {
        linger_step(m, config, now, now, unix_us)
    }
}

/// The chunk that was sent is reported; a pause follows where pacing asks for
/// one, and then a look at the socket.
pub open spec fn chunk_reported(
    m: UdpSenderModel,
    config: UdpClientConfig<String>,
    index: u32,
    payload_len: u32,
) -> (UdpSenderModel, UdpActionModel) {
    let chunk_count = m.chunk_count() as u32;
    let reported = m.logged_if(
        config.verbose_chunks,
        UdpClientEvent::Frame(
            FrameEvent::ChunkSent { frame_id: m.frames_sent, chunk_index: index, chunk_count, payload_len },
        ),
    );
    if pause_due(config.pace_every, config.pace_us, m.next_chunk, chunk_count) {
        (UdpSenderModel { phase: UdpPhase::Paced, ..reported }, UdpActionModel::Pause { us: config.pace_us })
    } else {
        (UdpSenderModel { phase: UdpPhase::Video, ..reported }, UdpActionModel::Drain)
    }
}

/// The sender after a frame.
pub open spec fn frame_ended(m: UdpSenderModel) -> UdpSenderModel {
    UdpSenderModel {
        frames_sent: (m.frames_sent + 1) as u64,
        next_chunk: 0,
        phase: UdpPhase::Frame,
        ..m
    }
}

/// The frame is reported and counted, and the sender sleeps until the next one
/// is due, or reports that it is late.
pub open spec fn frame_closed(m: UdpSenderModel, config: UdpClientConfig<String>, now: u64) -> (
    UdpSenderModel,
    UdpActionModel,
) {
    let ended = frame_ended(
        m.logged_if(
            !config.quiet_frames,
            UdpClientEvent::Frame(
                FrameEvent::Sent {
                    frame_id: m.frames_sent,
                    chunks_sent: m.chunk_count() as u32,
                    bytes_sent: m.frame_size,
                    elapsed_us: elapsed(m.frame_started, now) / 1_000,
                },
            ),
        ),
    );
    let (due, sleep_ns) = next_due(m.due, (1_000_000_000int / config.fps as int) as u64, now);
    match sleep_ns {
        Some(ns) => (UdpSenderModel { due, ..ended }, UdpActionModel::Sleep { ns }),
        None => (
            UdpSenderModel { due, ..ended }.logged_if(
                true,
                UdpClientEvent::Frame(
                    FrameEvent::Late {
                        frame_id: ended.frames_sent,
                        elapsed_ms: elapsed(m.started, now) / 1_000_000,
                    },
                ),
            ),
            UdpActionModel::Late,
        ),
    }
}

/// The sender looks at the socket until the linger time since `since` has
/// passed; then it says goodbye.
pub open spec fn linger_step(
    m: UdpSenderModel,
    config: UdpClientConfig<String>,
    since: u64,
    now: u64,
    unix_us: u64,
) -> (UdpSenderModel, UdpActionModel) {
    if has_elapsed(since, now, config.nack_linger_ms) {
        bye_step(m, 0, unix_us)
    } else {
        (UdpSenderModel { phase: UdpPhase::Lingered { since }, ..m }, UdpActionModel::Drain)
    }
}

/// The packet that ends the session is sent three times.
pub open spec fn bye_step(m: UdpSenderModel, sent: u32, unix_us: u64) -> (UdpSenderModel, UdpActionModel) {
    if sent < BYE_PACKETS {
        (
            UdpSenderModel { phase: UdpPhase::ByeSent { sent: (sent + 1) as u32, unix_us }, ..m },
            UdpActionModel::Bye { index: sent, packet: farewell(m, unix_us) },
        )
    } else {
        (UdpSenderModel { phase: UdpPhase::Done, ..m }, UdpActionModel::Done)
    }
}

/// What a sender does next, at a time of the monotonic clock and a time of day,
/// and the sender after it.
pub open spec fn client_step(m: UdpSenderModel, config: UdpClientConfig<String>, now: u64, unix_us: u64) -> (
    UdpSenderModel,
    UdpActionModel,
) {
    match m.phase {
        UdpPhase::Frame => frame_step(m, config, now, unix_us),
        UdpPhase::Video => chunk_step(m, unix_us),
        UdpPhase::Sent { index, payload_len } => chunk_reported(m, config, index, payload_len),
        UdpPhase::Paced => (UdpSenderModel { phase: UdpPhase::Video, ..m }, UdpActionModel::Drain),
        UdpPhase::Closed => frame_closed(m, config, now),
        UdpPhase::Linger { since } => linger_step(m, config, since, now, unix_us),
        UdpPhase::Lingered { since } => (
            UdpSenderModel { phase: UdpPhase::Linger { since }, ..m },
            UdpActionModel::Sleep { ns: LINGER_SLEEP_NS },
        ),
        UdpPhase::Bye { sent, unix_us } => bye_step(m, sent, unix_us),
        UdpPhase::ByeSent { sent, unix_us } => (
            UdpSenderModel { phase: UdpPhase::Bye { sent, unix_us }, ..m },
            UdpActionModel::Sleep { ns: BYE_SLEEP_NS },
        ),
        UdpPhase::Done => (m, UdpActionModel::Done),
    }
}

/// The totals and the packets to send again after a request for `indexes` of a
/// frame that is kept: each chunk that the frame has is sent again, each other
/// one is counted as a miss.
pub open spec fn resent(stats: UdpClientStats, chunks: Seq<Seq<u8>>, indexes: Seq<u32>) -> (
    UdpClientStats,
    Seq<Seq<u8>>,
)
    decreases indexes.len(),
{
    if indexes.len() == 0 {
        (stats, seq![])
    } else {
        let (before, packets) = resent(stats, chunks, indexes.drop_last());
        let index = indexes.last() as int;
        if index < chunks.len() {
            (
                UdpClientStats {
                    retransmit_packets: saturating_sum(before.retransmit_packets as int, 1),
                    retransmit_bytes: saturating_sum(
                        before.retransmit_bytes as int,
                        if chunks[index].len() > UDP_PACKET_HEADER_LEN {
                            chunks[index].len() - UDP_PACKET_HEADER_LEN
                        } else {
                            0
                        },
                    ),
                    ..before
                },
                packets.push(chunks[index]),
            )
        } else {
            (
                UdpClientStats {
                    retransmit_misses: saturating_sum(before.retransmit_misses as int, 1),
                    ..before
                },
                packets,
            )
        }
    }
}

/// The sender and the packets to send again after a control packet.
pub open spec fn control_handled(m: UdpSenderModel, data: Seq<u8>, verbose: bool) -> (
    UdpSenderModel,
    Seq<Seq<u8>>,
) {
    match decoded_udp_packet(data) {
        Err(error) => (
            m.logged_if(true, UdpClientEvent::BadControlPacket { bytes: data.len() as usize, error }),
            seq![],
        ),
        Ok(header) => {
            let payload = data.skip(UDP_PACKET_HEADER_LEN as int);
            if header.packet_type == UDP_PACKET_STATUS {
                let status = status_of(payload);
                (
                    UdpSenderModel {
                        stats: UdpClientStats {
                            statuses_received: saturating_sum(m.stats.statuses_received as int, 1),
                            status_frames_complete: status.frames_complete,
                            status_frames_skipped: status.frames_skipped,
                            status_last_observed_frame_id: status.last_observed_frame_id,
                            ..m.stats
                        },
                        ..m
                    }.logged_if(verbose, UdpClientEvent::StreamStatus(status)),
                    seq![],
                )
            } else if header.packet_type != UDP_PACKET_NACK {
                (m, seq![])
            } else if header.session_id != m.session_id {
                (
                    m.logged_if(
                        true,
                        UdpClientEvent::StaleNack {
                            frame_id: header.frame_id,
                            session_id: header.session_id,
                        },
                    ),
                    seq![],
                )
            } else {
                nack_handled(m, header.frame_id, requested_indexes(payload), verbose)
            }
        },
    }
}

/// The totals after a request for chunks has been received.
pub open spec fn nack_counted(stats: UdpClientStats, chunks: nat) -> UdpClientStats {
    UdpClientStats {
        nacks_received: saturating_sum(stats.nacks_received as int, 1),
        nack_chunks_requested: saturating_sum(stats.nack_chunks_requested as int, chunks as int),
        ..stats
    }
}

/// The sender and the packets to send again after a request for chunks.
pub open spec fn nack_handled(m: UdpSenderModel, frame_id: u64, indexes: Seq<u32>, verbose: bool) -> (
    UdpSenderModel,
    Seq<Seq<u8>>,
) {
    let counted = nack_counted(m.stats, indexes.len());
    if m.cache.contains_key(frame_id) {
        let (stats, packets) = resent(counted, m.cache[frame_id], indexes);
        (
            UdpSenderModel { stats, ..m }.logged_if(
                verbose,
                UdpClientEvent::NackHandled { frame_id, requested_chunks: indexes.len() as usize },
            ),
            packets,
        )
    } else {
        (
            UdpSenderModel {
                stats: UdpClientStats {
                    retransmit_misses: saturating_sum(
                        counted.retransmit_misses as int,
                        indexes.len() as int,
                    ),
                    ..counted
                },
                ..m
            }.logged_if(
                verbose,
                UdpClientEvent::NackCacheMiss { frame_id, requested_chunks: indexes.len() as usize },
            ),
            seq![],
        )
    }
}

/// For how long a datagram that the socket does not take is tried again, in
/// milliseconds.
pub const SEND_RETRY_MS: u64 = 500;

/// Whether a datagram that the socket did not take is tried again.
pub fn may_retry_send(started: u64, now: u64) -> (retry: bool)
    ensures
        retry == !has_elapsed(started, now, SEND_RETRY_MS),
{
    !elapsed_at_least(started, now, SEND_RETRY_MS)
}

/// The contents of the cache.
pub open spec fn cache_models(cache: Map<u64, SentUdpFrame>) -> Map<u64, Seq<Seq<u8>>> {
    cache.map_values(|frame: SentUdpFrame| frame@)
}

/// Packets as byte sequences.
pub open spec fn packet_views(packets: Seq<Vec<u8>>) -> Seq<Seq<u8>> {
    packets.map_values(|packet: Vec<u8>| packet@)
}

/// A UDP sender.
#[derive(Debug)]
pub struct UdpSender {
    session_id: u64,
    frame_size: u32,
    payload_size: u32,
    cache_frames: usize,
    cache: BTreeMap<u64, SentUdpFrame>,
    stats: UdpClientStats,
    frames_sent: u64,
    next_chunk: u32,
    packets_sent: u64,
    bytes_sent: u64,
    phase: UdpPhase,
    started: u64,
    frame_started: u64,
    schedule: FrameSchedule,
    log: Vec<UdpClientEvent>,
}

impl View for UdpSender {
    type V = UdpSenderModel;

    closed spec fn view(&self) -> UdpSenderModel {
        UdpSenderModel {
            session_id: self.session_id,
            frame_size: self.frame_size,
            payload_size: self.payload_size,
            cache_frames: self.cache_frames,
            cache: cache_models(self.cache@),
            stats: self.stats,
            frames_sent: self.frames_sent,
            next_chunk: self.next_chunk,
            packets_sent: self.packets_sent,
            bytes_sent: self.bytes_sent,
            phase: self.phase,
            started: self.started,
            frame_started: self.frame_started,
            due: self.schedule.next,
            log: self.log@,
        }
    }
}

proof fn lemma_models_insert(cache: Map<u64, SentUdpFrame>, id: u64, frame: SentUdpFrame)
    ensures
        cache_models(cache.insert(id, frame)) == cache_models(cache).insert(id, frame@),
{
    assert(cache_models(cache.insert(id, frame)) =~= cache_models(cache).insert(id, frame@));
}

proof fn lemma_models_remove(cache: Map<u64, SentUdpFrame>, id: u64)
    ensures
        cache_models(cache.remove(id)) == cache_models(cache).remove(id),
{
    assert(cache_models(cache.remove(id)) =~= cache_models(cache).remove(id));
}

pub proof fn lemma_chunk_count(m: UdpSenderModel)
    requires
        m.frame_size > 0,
        m.payload_size > 0,
    ensures
        0 < m.chunk_count() <= m.frame_size,
{
    lemma_ceil_div_bounds(m.frame_size as int, m.payload_size as int);
}

/// A chunk emitted keeps the packets of the cache in their places.
proof fn lemma_emitted_wf(m: UdpSenderModel, unix_us: u64)
    requires
        m.wf(),
        m.next_chunk < m.chunk_count(),
    ensures
        chunk_emitted(m, unix_us).wf(),
{
    let next = chunk_emitted(m, unix_us);
    lemma_chunk_count(m);
    let id = m.frames_sent;
    let packet = m.video_packet(id, m.next_chunk, unix_us);
    assert(m.is_video_packet(packet, id, m.next_chunk));
    assert forall|other: u64, index: int|
        next.cache.contains_key(other) && 0 <= index < next.cache[other].len() implies next.is_video_packet(
        #[trigger] next.cache[other][index],
        other,
        index as u32,
    ) by {
        if other == id && m.cache_frames != 0 && index == m.cache[id].len() {
            assert(next.video_packet(id, m.next_chunk, unix_us) == packet);
        } else {
            assert(m.is_video_packet(m.cache[other][index], other, index as u32));
            let at = choose|at: u64| m.cache[other][index] == #[trigger] m.video_packet(
                other,
                index as u32,
                at,
            );
            assert(next.video_packet(other, index as u32, at) == next.cache[other][index]);
        }
    }
}

/// Changing what the packets do not depend on keeps them.
proof fn lemma_same_packets(m: UdpSenderModel, next: UdpSenderModel)
    requires
        m.wf(),
        next.session_id == m.session_id,
        next.frame_size == m.frame_size,
        next.payload_size == m.payload_size,
        next.cache.dom().finite(),
        forall|id: u64| #[trigger]
            next.cache.contains_key(id) ==> next.cache[id].len() == 0 || (m.cache.contains_key(id)
                && next.cache[id] == m.cache[id]),
        forall|id: u64| #[trigger]
            next.cache.contains_key(id) ==> next.cache_frames != 0 && id <= next.frames_sent,
        next.next_chunk <= next.chunk_count(),
        next.cache.contains_key(next.frames_sent) ==> next.cache[next.frames_sent].len()
            == next.next_chunk,
        next.phase.in_frame() ==> next.frames_sent < u64::MAX,
    ensures
        next.wf(),
{
    assert(next.chunk_count() == m.chunk_count());
    lemma_chunk_count(m);
    assert forall|id: u64, index: int|
        next.cache.contains_key(id) && 0 <= index < next.cache[id].len() implies next.is_video_packet(
        #[trigger] next.cache[id][index],
        id,
        index as u32,
    ) by {
        assert(m.is_video_packet(m.cache[id][index], id, index as u32));
        let at = choose|at: u64| m.cache[id][index] == #[trigger] m.video_packet(id, index as u32, at);
        assert(next.video_packet(id, index as u32, at) == next.cache[id][index]);
    }
}

impl UdpSender {
    /// The sizes are valid, and each packet kept is that of its frame and chunk.
    pub closed spec fn wf(&self) -> bool {
        self@.wf()
    }

    pub proof fn lemma_wf(&self)
        requires
            self.wf(),
        ensures
            self@.wf(),
    {
    }

    pub fn new(config: &UdpClientConfig<String>, session_id: u64, now: u64) -> (sender: UdpSender)
        requires
            udp_client_fault(*config) is None,
        ensures
            sender.wf(),
            sender@ == fresh_sender(*config, session_id, now),
    {
        let sender = UdpSender {
            session_id,
            frame_size: config.frame_size,
            payload_size: config.payload_size,
            cache_frames: config.resend_cache_frames,
            cache: BTreeMap::new(),
            stats: UdpClientStats {
                nacks_received: 0,
                nack_chunks_requested: 0,
                retransmit_packets: 0,
                retransmit_bytes: 0,
                retransmit_misses: 0,
                announce_packets_sent: 0,
                statuses_received: 0,
                status_frames_complete: 0,
                status_frames_skipped: 0,
                status_last_observed_frame_id: 0,
            },
            frames_sent: 0,
            next_chunk: 0,
            packets_sent: 0,
            bytes_sent: 0,
            phase: UdpPhase::Frame,
            started: now,
            frame_started: now,
            schedule: FrameSchedule { next: now },
            log: Vec::new(),
        };
        assert(cache_models(sender.cache@) =~= Map::empty());
        assert(sender.log@ =~= seq![]);
        proof {
            lemma_chunk_count(sender@);
        }
        sender
    }

    /// Whether another frame is to be sent.
    fn wants_frame(&self, config: &UdpClientConfig<String>) -> (more: bool)
        ensures
            more == (self@.frames_sent < saturating_product(
                config.duration_sec as int,
                config.fps as int,
            )),
    {
        self.frames_sent < frame_count_target(config.duration_sec, config.fps)
    }

    /// The number of chunks of a frame.
    fn chunk_count(&self) -> (count: u32)
        requires
            self.wf(),
        ensures
            count == self@.chunk_count(),
    {
        div_ceil_u32(self.frame_size, self.payload_size)
    }

    /// The packet that announces the current frame.
    fn announce_packet(&self, unix_us: u64) -> (packet: Vec<u8>)
        requires
            self.wf(),
        ensures
            packet@ == announcement(self@, unix_us),
    {
        let header = UdpVideoPacketHeader {
            packet_type: UDP_PACKET_ANNOUNCE,
            session_id: self.session_id,
            frame_id: self.frames_sent,
            chunk_index: 0,
            chunk_count: self.chunk_count(),
            frame_size: self.frame_size,
            payload_len: 0,
            sent_unix_us: unix_us,
        };
        let empty: Vec<u8> = Vec::new();
        assert(empty@ =~= seq![]);
        udp_packet(&header, empty.as_slice())
    }

    /// Takes note that the announcement has been sent.
    fn announce_sent(&mut self)
        requires
            old(self).wf(),
        ensures
            final(self).wf(),
            final(self)@ == frame_announced(old(self)@),
    {
        self.stats.announce_packets_sent = self.stats.announce_packets_sent.saturating_add(1);
        proof {
            lemma_same_packets(old(self)@, self@);
        }
    }

    /// Starts the current frame.
    fn begin_frame(&mut self)
        requires
            old(self).wf(),
        ensures
            final(self).wf(),
            final(self)@ == frame_begun(old(self)@),
    {
        broadcast use vstd::std_specs::btree::group_btree_axioms;

        let ghost m = self@;
        let ghost held = self.cache@;
        self.next_chunk = 0;
        if self.cache_frames != 0 {
            let frame = SentUdpFrame { chunks: Vec::new() };
            assert(frame@ =~= seq![]);
            proof {
                lemma_models_insert(held, self.frames_sent, frame);
            }
            self.cache.insert(self.frames_sent, frame);
        }
        proof {
            lemma_chunk_count(m);
            lemma_same_packets(m, self@);
        }
    }

    /// The packet of the next chunk of the current frame, kept for requests;
    /// nothing where the frame is at its end.
    fn next_video_packet(&mut self, unix_us: u64) -> (packet: Option<Vec<u8>>)
        requires
            old(self).wf(),
        ensures
            final(self).wf(),
            match packet {
                Some(packet) => {
                    &&& old(self)@.next_chunk < old(self)@.chunk_count()
                    &&& packet@ == old(self)@.video_packet(
                        old(self)@.frames_sent,
                        old(self)@.next_chunk,
                        unix_us,
                    )
                    &&& final(self)@ == chunk_emitted(old(self)@, unix_us)
                },
                None => {
                    &&& old(self)@.next_chunk == old(self)@.chunk_count()
                    &&& final(self)@ == old(self)@
                },
            },
    {
        broadcast use vstd::std_specs::btree::group_btree_axioms;

        let ghost m = self@;
        let chunk_count: u32 = self.chunk_count();
        if self.next_chunk >= chunk_count {
            return None;
        }
        let index: u32 = self.next_chunk;
        let payload_len: u32 = chunk_payload_len(self.frame_size, self.payload_size, index);
        let mut payload: Vec<u8> = vec![0u8; payload_len as usize];
        fill_payload(payload.as_mut_slice(), self.frames_sent, index);
        let header = UdpVideoPacketHeader {
            packet_type: UDP_PACKET_VIDEO,
            session_id: self.session_id,
            frame_id: self.frames_sent,
            chunk_index: index,
            chunk_count,
            frame_size: self.frame_size,
            payload_len,
            sent_unix_us: unix_us,
        };
        let packet = udp_packet(&header, payload.as_slice());
        assert(packet@ == m.video_packet(m.frames_sent, index, unix_us));
        proof {
            lemma_emitted_wf(m, unix_us);
        }
        let ghost held = self.cache@;
        let frame_id: u64 = self.frames_sent;
        if self.cache_frames != 0 {
            assert(cache_models(held).contains_key(frame_id) == held.contains_key(frame_id));
            if let Some(mut frame) = self.cache.remove(&frame_id) {
                assert(cache_models(held)[frame_id] == held[frame_id]@);
                let ghost before = frame@;
                frame.chunks.push(slice_to_vec(packet.as_slice()));
                assert(frame@ =~= before.push(packet@));
                let ghost kept = frame;
                self.cache.insert(frame_id, frame);
                proof {
                    lemma_models_remove(held, frame_id);
                    lemma_models_insert(held.remove(frame_id), frame_id, kept);
                    assert(cache_models(self.cache@) =~= m.cache.insert(frame_id, before.push(packet@)));
                }
            } else {
                assert(cache_models(self.cache@) =~= m.cache);
            }
        }
        self.next_chunk = index + 1;
        self.packets_sent = self.packets_sent.saturating_add(1);
        self.bytes_sent = self.bytes_sent.saturating_add(payload_len as u64);
        assert(self@ == chunk_emitted(m, unix_us));
        Some(packet)
    }

    /// Keeps only the newest frames.
    pub fn prune_udp_sent_cache(&mut self)
        requires
            old(self).wf(),
        ensures
            final(self).wf(),
            final(self)@ == cache_pruned(old(self)@),
    {
        broadcast use vstd::std_specs::btree::group_btree_axioms;

        if self.cache_frames == 0 {
            return;
        }
        let ghost m = self@;
        let ghost held = self.cache@;
        assert(m.cache.dom() =~= held.dom());
        let ids = sorted_keys(&self.cache);
        let excess: usize = if ids.len() > self.cache_frames { ids.len() - self.cache_frames } else { 0 };
        let mut i: usize = 0;
        while i < excess
            invariant
                i <= excess <= ids.len(),
                lists(ids@, held.dom()),
                self@ == (UdpSenderModel { cache: cache_models(self.cache@), ..m }),
                forall|id: u64| #[trigger]
                    self.cache@.contains_key(id) <==> held.contains_key(id) && !ids@.take(
                        i as int,
                    ).contains(id),
                forall|id: u64| #[trigger]
                    self.cache@.contains_key(id) ==> self.cache@[id] == held[id],
            decreases excess - i,
        {
            let id: u64 = ids[i];
            let ghost done = ids@.take(i as int);
            self.cache.remove(&id);
            proof {
                let more = ids@.take(i + 1);
                assert(more =~= done.push(id));
                assert forall|other: u64| more.contains(other) == (done.contains(other) || other == id) by {
                    if done.contains(other) {
                        let j = done.index_of(other);
                        assert(more[j] == other);
                    }
                    if other == id {
                        assert(more[i as int] == id);
                    }
                }
            }
            i += 1;
        }
        proof {
            let newest = newest_ids(m.cache.dom(), m.cache_frames);
            assert(newest == ids@.skip(excess as int));
            let gone = ids@.take(excess as int);
            assert forall|id: u64| held.contains_key(id) implies newest.to_set().contains(id)
                == !gone.contains(id) by {
                assert(ids@.to_set().contains(id));
                let at = choose|at: int| 0 <= at < ids.len() && ids@[at] == id;
                if at < excess {
                    assert(gone[at] == id);
                    if newest.to_set().contains(id) {
                        let k = choose|k: int| 0 <= k < newest.len() && newest[k] == id;
                        assert(ids@[k + excess] == id);
                        assert(ids@[at] < ids@[k + excess]);
                    }
                } else {
                    assert(newest[at - excess] == id);
                    if gone.contains(id) {
                        let k = gone.index_of(id);
                        assert(ids@[k] < ids@[at]);
                    }
                }
            }
            assert(cache_models(self.cache@) =~= pruned(m.cache, m.cache_frames));
            assert(self@.cache.dom() =~= self.cache@.dom());
            lemma_same_packets(m, self@);
        }
    }

    /// Ends the current frame.
    fn frame_done(&mut self)
        requires
            old(self).wf(),
            old(self)@.frames_sent < u64::MAX,
        ensures
            final(self).wf(),
            final(self)@ == frame_ended(old(self)@),
    {
        let ghost m = self@;
        self.frames_sent = self.frames_sent + 1;
        self.next_chunk = 0;
        self.phase = UdpPhase::Frame;
        proof {
            lemma_chunk_count(m);
            lemma_same_packets(m, self@);
        }
    }

    /// Handles a control packet; returns the packets to send again.
    pub fn on_control(&mut self, data: &[u8], verbose: bool) -> (packets: Vec<Vec<u8>>)
        requires
            old(self).wf(),
        ensures
            final(self).wf(),
            (final(self)@, packet_views(packets@)) == control_handled(old(self)@, data@, verbose),
    {
        broadcast use vstd::std_specs::btree::group_btree_axioms;

        let ghost m = self@;
        let mut packets: Vec<Vec<u8>> = Vec::new();
        assert(packet_views(packets@) =~= seq![]);
        match decode_udp_packet(data) {
            Err(error) => {
                self.log.push(UdpClientEvent::BadControlPacket { bytes: data.len(), error });
            },
            Ok((header, payload)) => {
                if header.packet_type == UDP_PACKET_STATUS {
                    if let Ok(status) = decode_udp_status(payload) {
                        self.stats.statuses_received = self.stats.statuses_received.saturating_add(1);
                        self.stats.status_frames_complete = status.frames_complete;
                        self.stats.status_frames_skipped = status.frames_skipped;
                        self.stats.status_last_observed_frame_id = status.last_observed_frame_id;
                        if verbose {
                            self.log.push(UdpClientEvent::StreamStatus(status));
                        }
                    }
                } else if header.packet_type == UDP_PACKET_NACK {
                    if header.session_id != self.session_id {
                        self.log.push(
                            UdpClientEvent::StaleNack {
                                frame_id: header.frame_id,
                                session_id: header.session_id,
                            },
                        );
                    } else {
                        packets = self.handle_nack(header.frame_id, payload, verbose);
                    }
                }
            },
        }
        proof {
            lemma_same_packets(m, self@);
        }
        packets
    }

    fn handle_nack(&mut self, frame_id: u64, payload: &[u8], verbose: bool) -> (packets: Vec<Vec<u8>>)
        requires
            old(self).wf(),
            payload.len() % 4 == 0,
        ensures
            final(self)@.cache == old(self)@.cache,
            (final(self)@, packet_views(packets@)) == nack_handled(
                old(self)@,
                frame_id,
                requested_indexes(payload@),
                verbose,
            ),
    {
        broadcast use vstd::std_specs::btree::group_btree_axioms;

        let ghost m = self@;
        let ghost indexes = requested_indexes(payload@);
        let requested: usize = payload.len() / 4;
        let mut packets: Vec<Vec<u8>> = Vec::new();
        assert(packet_views(packets@) =~= seq![]);
        self.stats.nacks_received = self.stats.nacks_received.saturating_add(1);
        self.stats.nack_chunks_requested =
        self.stats.nack_chunks_requested.saturating_add(requested as u64);
        assert(cache_models(self.cache@).contains_key(frame_id) == self.cache@.contains_key(frame_id));
        let ghost counted = self.stats;
        let mut stats = self.stats;
        match self.cache.get(&frame_id) {
            None => {
                self.stats.retransmit_misses =
                self.stats.retransmit_misses.saturating_add(requested as u64);
                if verbose {
                    self.log.push(
                        UdpClientEvent::NackCacheMiss { frame_id, requested_chunks: requested },
                    );
                }
            },
            Some(frame) => {
                assert(cache_models(self.cache@)[frame_id] == frame@);
                let ghost chunks = frame@;
                let mut cursor: usize = 0;
                let mut done: usize = 0;
                assert(indexes.take(0) =~= seq![]);
                while done < requested
                    invariant
                        done <= requested,
                        requested * 4 == payload.len(),
                        cursor == done * 4,
                        indexes == requested_indexes(payload@),
                        chunks == frame@,
                        resent(counted, chunks, indexes.take(done as int)) == (
                            stats,
                            packet_views(packets@),
                        ),
                    decreases requested - done,
                {
                    let ghost sent = packet_views(packets@);
                    proof {
                        assert(indexes.take(done + 1).drop_last() =~= indexes.take(done as int));
                        assert(indexes.take(done + 1).last() == indexes[done as int]);
                    }
                    let index: usize = match get_u32(payload, &mut cursor) {
                        Ok(index) => index as usize,
                        Err(_) => 0,
                    };
                    assert(index == indexes[done as int]);
                    if index < frame.chunks.len() {
                        let chunk = slice_to_vec(frame.chunks[index].as_slice());
                        assert(chunk@ == chunks[index as int]);
                        let payload_bytes: usize = chunk.len().saturating_sub(UDP_PACKET_HEADER_LEN);
                        stats.retransmit_packets = stats.retransmit_packets.saturating_add(1);
                        stats.retransmit_bytes =
                        stats.retransmit_bytes.saturating_add(payload_bytes as u64);
                        packets.push(chunk);
                        assert(packet_views(packets@) =~= sent.push(chunks[index as int]));
                    } else {
                        stats.retransmit_misses = stats.retransmit_misses.saturating_add(1);
                    }
                    done += 1;
                }
                assert(indexes.take(done as int) =~= indexes);
                self.stats = stats;
                if verbose {
                    self.log.push(
                        UdpClientEvent::NackHandled { frame_id, requested_chunks: requested },
                    );
                }
            },
        }
        packets
    }

    /// The packet that ends the session.
    fn bye_packet(&self, unix_us: u64) -> (packet: Vec<u8>)
        ensures
            packet@ == farewell(self@, unix_us),
    {
        let header = UdpVideoPacketHeader {
            packet_type: UDP_PACKET_BYE,
            session_id: self.session_id,
            frame_id: self.frames_sent,
            chunk_index: 0,
            chunk_count: 0,
            frame_size: 0,
            payload_len: 0,
            sent_unix_us: unix_us,
        };
        let empty: Vec<u8> = Vec::new();
        assert(empty@ =~= seq![]);
        udp_packet(&header, empty.as_slice())
    }

    /// What the sender does next, at a time of the monotonic clock and a time of
    /// day. What it reports is to be written before the action is carried out.
    pub fn step(&mut self, config: &UdpClientConfig<String>, now: u64, unix_us: u64) -> (action: UdpAction)
        requires
            old(self).wf(),
            udp_client_fault(*config) is None,
        ensures
            final(self).wf(),
            (final(self)@, action@) == client_step(old(self)@, *config, now, unix_us),
    {
        match self.phase {
            UdpPhase::Frame => self.open_frame(config, now, unix_us),
            UdpPhase::Video => self.send_chunk(unix_us),
            UdpPhase::Sent { index, payload_len } => self.report_chunk(config, index, payload_len),
            UdpPhase::Paced => {
                self.enter(UdpPhase::Video);
                UdpAction::Drain
            },
            UdpPhase::Closed => self.close_frame(config, now),
            UdpPhase::Linger { since } => self.linger(config, since, now, unix_us),
            UdpPhase::Lingered { since } => {
                self.enter(UdpPhase::Linger { since });
                UdpAction::Sleep { ns: LINGER_SLEEP_NS }
            },
            UdpPhase::Bye { sent, unix_us } => self.say_bye(sent, unix_us),
            UdpPhase::ByeSent { sent, unix_us } => {
                self.enter(UdpPhase::Bye { sent, unix_us });
                UdpAction::Sleep { ns: BYE_SLEEP_NS }
            },
            UdpPhase::Done => UdpAction::Done,
        }
    }

    /// Gives up saying goodbye; the session is over.
    pub fn bye_failed(&mut self)
        requires
            old(self).wf(),
        ensures
            final(self).wf(),
            final(self)@ == (UdpSenderModel { phase: UdpPhase::Done, ..old(self)@ }),
    {
        self.enter(UdpPhase::Done);
    }

    fn enter(&mut self, phase: UdpPhase)
        requires
            old(self).wf(),
            phase.in_frame() ==> old(self)@.frames_sent < u64::MAX,
        ensures
            final(self).wf(),
            final(self)@ == (UdpSenderModel { phase, ..old(self)@ }),
    {
        let ghost m = self@;
        self.phase = phase;
        proof {
            lemma_same_packets(m, self@);
        }
    }

    fn report_if(&mut self, enabled: bool, event: FrameEvent)
        requires
            old(self).wf(),
        ensures
            final(self).wf(),
            final(self)@ == old(self)@.logged_if(enabled, UdpClientEvent::Frame(event)),
    {
        let ghost m = self@;
        if enabled {
            self.log.push(UdpClientEvent::Frame(event));
        }
        proof {
            lemma_same_packets(m, self@);
        }
    }

    fn open_frame(&mut self, config: &UdpClientConfig<String>, now: u64, unix_us: u64) -> (action: UdpAction)
        requires
            old(self).wf(),
        ensures
            final(self).wf(),
            (final(self)@, action@) == frame_step(old(self)@, *config, now, unix_us),
    {
        if !self.wants_frame(config) {
            return self.linger(config, now, now, unix_us);
        }
        let packet = if config.announce_frames { Some(self.announce_packet(unix_us)) } else { None };
        let event = FrameEvent::Start {
            frame_id: self.frames_sent,
            chunk_count: self.chunk_count(),
            frame_size: self.frame_size,
        };
        self.begin_frame();
        self.enter(UdpPhase::Video);
        let ghost begun = self@;
        self.frame_started = now;
        proof {
            lemma_same_packets(begun, self@);
        }
        self.report_if(!config.quiet_frames, event);
        match packet {
            Some(packet) => {
                self.announce_sent();
                UdpAction::Announce(packet)
            },
            None => self.send_chunk(unix_us),
        }
    }

    fn send_chunk(&mut self, unix_us: u64) -> (action: UdpAction)
        requires
            old(self).wf(),
            old(self)@.frames_sent < u64::MAX,
        ensures
            final(self).wf(),
            (final(self)@, action@) == chunk_step(old(self)@, unix_us),
    {
        let index: u32 = self.next_chunk;
        match self.next_video_packet(unix_us) {
            Some(packet) => {
                let payload_len: u32 = chunk_payload_len(self.frame_size, self.payload_size, index);
                self.enter(UdpPhase::Sent { index, payload_len });
                UdpAction::Video(packet)
            },
            None => {
                self.prune_udp_sent_cache();
                self.enter(UdpPhase::Closed);
                UdpAction::Drain
            },
        }
    }

    fn report_chunk(&mut self, config: &UdpClientConfig<String>, index: u32, payload_len: u32) -> (action:
        UdpAction)
        requires
            old(self).wf(),
            old(self)@.frames_sent < u64::MAX,
        ensures
            final(self).wf(),
            (final(self)@, action@) == chunk_reported(old(self)@, *config, index, payload_len),
    {
        let frame_id: u64 = self.frames_sent;
        let chunk_count: u32 = self.chunk_count();
        let event = FrameEvent::ChunkSent { frame_id, chunk_index: index, chunk_count, payload_len };
        self.report_if(config.verbose_chunks, event);
        match maybe_pace_udp(config.pace_every, config.pace_us, self.next_chunk, chunk_count) {
            Some(us) => {
                self.enter(UdpPhase::Paced);
                UdpAction::Pause { us }
            },
            None => {
                self.enter(UdpPhase::Video);
                UdpAction::Drain
            },
        }
    }

    fn close_frame(&mut self, config: &UdpClientConfig<String>, now: u64) -> (action: UdpAction)
        requires
            old(self).wf(),
            old(self)@.frames_sent < u64::MAX,
            config.fps > 0,
        ensures
            final(self).wf(),
            (final(self)@, action@) == frame_closed(old(self)@, *config, now),
    {
        let event = FrameEvent::Sent {
            frame_id: self.frames_sent,
            chunks_sent: self.chunk_count(),
            bytes_sent: self.frame_size,
            elapsed_us: elapsed_us(self.frame_started, now),
        };
        self.report_if(!config.quiet_frames, event);
        self.frame_done();
        let ghost ended = self@;
        let sleep_ns = self.schedule.advance(frame_period_ns(config.fps), now);
        proof {
            lemma_same_packets(ended, self@);
        }
        match sleep_ns {
            Some(ns) => UdpAction::Sleep { ns },
            None => {
                let late = FrameEvent::Late {
                    frame_id: self.frames_sent,
                    elapsed_ms: elapsed_ns(self.started, now) / 1_000_000,
                };
                self.report_if(true, late);
                UdpAction::Late
            },
        }
    }

    fn linger(&mut self, config: &UdpClientConfig<String>, since: u64, now: u64, unix_us: u64) -> (action:
        UdpAction)
        requires
            old(self).wf(),
        ensures
            final(self).wf(),
            (final(self)@, action@) == linger_step(old(self)@, *config, since, now, unix_us),
    {
        if elapsed_at_least(since, now, config.nack_linger_ms) {
            self.say_bye(0, unix_us)
        } else {
            self.enter(UdpPhase::Lingered { since });
            UdpAction::Drain
        }
    }

    fn say_bye(&mut self, sent: u32, unix_us: u64) -> (action: UdpAction)
        requires
            old(self).wf(),
        ensures
            final(self).wf(),
            (final(self)@, action@) == bye_step(old(self)@, sent, unix_us),
    {
        if sent < BYE_PACKETS {
            let packet = self.bye_packet(unix_us);
            self.enter(UdpPhase::ByeSent { sent: sent + 1, unix_us });
            UdpAction::Bye { index: sent, packet }
        } else {
            self.enter(UdpPhase::Done);
            UdpAction::Done
        }
    }

    pub fn stats(&self) -> (stats: UdpClientStats)
        ensures
            stats == self@.stats,
    {
        self.stats
    }

    pub fn frames_sent(&self) -> (count: u64)
        ensures
            count == self@.frames_sent,
    {
        self.frames_sent
    }

    pub fn packets_sent(&self) -> (count: u64)
        ensures
            count == self@.packets_sent,
    {
        self.packets_sent
    }

    pub fn bytes_sent(&self) -> (count: u64)
        ensures
            count == self@.bytes_sent,
    {
        self.bytes_sent
    }

    /// Hands out what has been reported since the last call.
    pub fn take_log(&mut self) -> (log: Vec<UdpClientEvent>)
        requires
            old(self).wf(),
        ensures
            final(self).wf(),
            log@ == old(self)@.log,
            final(self)@ == (UdpSenderModel { log: seq![], ..old(self)@ }),
    {
        let ghost m = self@;
        let mut log: Vec<UdpClientEvent> = Vec::new();
        log.append(&mut self.log);
        assert(log@ =~= old(self)@.log);
        assert(self.log@ =~= seq![]);
        proof {
            lemma_same_packets(m, self@);
        }
        log
    }
}

// ---------------------------------------------------------------------------
// Laws
// ---------------------------------------------------------------------------

/// Pruning keeps `max` frames, the newest ones, with their packets; it drops none
/// where there are no more than that.
pub proof fn law_cache_keeps_newest(m: UdpSenderModel, max: usize)
    requires
        m.wf(),
    ensures
        pruned(m.cache, max).dom().len() <= max,
        pruned(m.cache, max).dom().len() == if m.cache.dom().len() < max {
            m.cache.dom().len() as int
        } else {
            max as int
        },
        forall|id: u64| #[trigger]
            pruned(m.cache, max).contains_key(id) ==> m.cache.contains_key(id) && pruned(m.cache, max)[id]
                == m.cache[id],
        forall|kept: u64, gone: u64| #[trigger]
            pruned(m.cache, max).contains_key(kept) && #[trigger] m.cache.contains_key(gone) && !pruned(
                m.cache,
                max,
            ).contains_key(gone) ==> gone < kept,
        m.cache.dom().len() <= max ==> pruned(m.cache, max) == m.cache,
{
    let cache = m.cache;
    lemma_sorted_lists(cache.dom());
    let all = sorted(cache.dom());
    let excess = if all.len() > max { all.len() - max } else { 0 };
    let newest = newest_ids(cache.dom(), max);
    assert(newest == all.skip(excess));
    assert forall|i: int, j: int| 0 <= i < newest.len() && 0 <= j < newest.len() && i != j implies newest[i]
        != newest[j] by {
        if i < j {
            assert(all[i + excess] < all[j + excess]);
        } else {
            assert(all[j + excess] < all[i + excess]);
        }
    }
    newest.unique_seq_to_set();
    assert forall|i: int, j: int| 0 <= i < all.len() && 0 <= j < all.len() && i != j implies all[i] != all[j] by {
        if i < j {
            assert(all[i] < all[j]);
        } else {
            assert(all[j] < all[i]);
        }
    }
    all.unique_seq_to_set();
    assert forall|id: u64| newest.to_set().contains(id) implies cache.contains_key(id) by {
        let k = choose|k: int| 0 <= k < newest.len() && newest[k] == id;
        assert(all[k + excess] == id);
        assert(all.to_set().contains(id));
    }
    assert(pruned(cache, max).dom() =~= newest.to_set());
    assert forall|kept: u64, gone: u64| #[trigger]
        pruned(cache, max).contains_key(kept) && #[trigger] cache.contains_key(gone) && !pruned(
            cache,
            max,
        ).contains_key(gone) implies gone < kept by {
        let k = choose|k: int| 0 <= k < newest.len() && newest[k] == kept;
        assert(all.to_set().contains(gone));
        let g = choose|g: int| 0 <= g < all.len() && all[g] == gone;
        if g >= excess {
            assert(newest[g - excess] == gone);
            assert(newest.to_set().contains(gone));
        }
        assert(all[g] < all[k + excess]);
    }
    if cache.dom().len() <= max {
        assert(newest =~= all);
        assert(pruned(cache, max) =~= cache);
    }
}

/// A request for chunks that the frame has is answered by their packets, in the
/// order asked for, and counts no miss.
pub proof fn law_resent_packets(stats: UdpClientStats, chunks: Seq<Seq<u8>>, indexes: Seq<u32>)
    requires
        forall|i: int| 0 <= i < indexes.len() ==> (#[trigger] indexes[i]) < chunks.len(),
    ensures
        resent(stats, chunks, indexes).1 == indexes.map_values(|index: u32| chunks[index as int]),
        resent(stats, chunks, indexes).0.retransmit_misses == stats.retransmit_misses,
    decreases indexes.len(),
{
    let answer = indexes.map_values(|index: u32| chunks[index as int]);
    if indexes.len() > 0 {
        let head = indexes.drop_last();
        assert forall|i: int| 0 <= i < head.len() implies (#[trigger] head[i]) < chunks.len() by {
            assert(head[i] == indexes[i]);
        }
        law_resent_packets(stats, chunks, head);
        assert(indexes[indexes.len() - 1] < chunks.len());
        assert(answer =~= head.map_values(|index: u32| chunks[index as int]).push(
            chunks[indexes.last() as int],
        ));
        assert(resent(stats, chunks, indexes).1 =~= answer);
    } else {
        assert(resent(stats, chunks, indexes).1 =~= answer);
    }
}

/// The receiver's request for chunks of a frame that the sender keeps is
/// answered by well-formed video packets of exactly those chunks of that frame.
pub proof fn law_request_is_answered(
    m: UdpSenderModel,
    header: UdpVideoPacketHeader,
    indexes: Seq<u32>,
    verbose: bool,
    at: int,
)
    requires
        m.wf(),
        header.packet_type == UDP_PACKET_NACK,
        header.session_id == m.session_id,
        header.payload_len == indexes.len() * 4,
        m.cache.contains_key(header.frame_id),
        forall|i: int|
            0 <= i < indexes.len() ==> (#[trigger] indexes[i]) < m.cache[header.frame_id].len(),
        0 <= at < indexes.len(),
    ensures
        ({
            let request = packet_bytes(header, index_bytes(indexes));
            let packets = control_handled(m, request, verbose).1;
            &&& packets.len() == indexes.len()
            &&& decoded_udp_packet(packets[at]) is Ok
            &&& ({
                let answer = decoded_udp_packet(packets[at])->Ok_0;
                &&& answer.packet_type == UDP_PACKET_VIDEO
                &&& answer.session_id == m.session_id
                &&& answer.frame_id == header.frame_id
                &&& answer.chunk_index == indexes[at]
                &&& answer.frame_size == m.frame_size
                &&& answer.chunk_count == m.chunk_count()
            })
        }),
{
    let payload = index_bytes(indexes);
    let request = packet_bytes(header, payload);
    lemma_index_bytes_len(indexes);
    law_udp_packet_round_trip(header, payload);
    law_request_indexes_round_trip(indexes);
    let counted = nack_counted(m.stats, indexes.len());
    law_resent_packets(counted, m.cache[header.frame_id], indexes);
    let packets = control_handled(m, request, verbose).1;
    let index = indexes[at];
    let packet = m.cache[header.frame_id][index as int];
    assert(packets[at] == packet);
    lemma_chunk_count(m);
    assert(m.is_video_packet(packet, header.frame_id, index));
    let unix_us = choose|unix_us: u64| packet == #[trigger] m.video_packet(
        header.frame_id,
        index,
        unix_us,
    );
    let answer = m.video_header(header.frame_id, index, unix_us);
    law_chunks_cover_frame(m.frame_size as int, m.payload_size as int);
    assert(0 < chunk_len(m.frame_size as int, m.payload_size as int, index as int) <= m.payload_size);
    law_udp_packet_round_trip(
        answer,
        payload_bytes(header.frame_id, index, answer.payload_len as nat),
    );
}

} // verus!
