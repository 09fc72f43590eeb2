//! The TCP receiver: reassembles frames, acknowledges them and pauses its reads
//! on schedule. The caller reads the stream and writes the acknowledgements.
use std::collections::BTreeMap;
use vstd::prelude::*;

use crate::netprobe::clock::{elapsed, elapsed_us, saturating_sum};
use crate::netprobe::config::ServerConfig;
use crate::netprobe::frames::{
    all_pending, frame_models, law_accept_chunk, lemma_count_bounds, lemma_models_dom, lemma_models_insert,
    lemma_models_remove, lists, sorted, sorted_keys, FrameModel, FrameRxState,
};
use crate::netprobe::wire::{ChunkMsg, FrameAckMsg, HelloMsg, WireMessage};

verus! {

/// Why open frames are listed.
#[derive(Clone, Copy, Debug, PartialEq, Eq, Structural)]
pub enum ReadEnd {
    Eof,
    ReadError,
}

/// What the receiver reports as it goes.
#[derive(Clone, Copy, Debug, PartialEq, Eq, Structural)]
pub enum ServerEvent {
    Hello(HelloMsg),
    BadChunk { frame_id: u64, chunk_index: u32, chunk_count: u32 },
    Chunk { frame_id: u64, chunk_index: u32, chunk_count: u32, payload_len: u32 },
    FrameRxStart { frame_id: u64, chunk_count: u32, frame_size: u32, first_chunk_index: u32 },
    FrameMismatch {
        frame_id: u64,
        expected_chunks: u32,
        got_chunks: u32,
        expected_size: u32,
        got_size: u32,
    },
    DuplicateChunk { frame_id: u64, chunk_index: u32 },
    FrameComplete {
        frame_id: u64,
        chunks_seen: u32,
        chunk_count: u32,
        bytes_seen: u32,
        sender_first_unix_us: u64,
        elapsed_us: u64,
    },
    UnexpectedAck,
    Bye { chunks_total: u64, bytes_total: u64, open_frames: usize },
    ReadEnded { end: ReadEnd, chunks_total: u64, bytes_total: u64, open_frames: usize },
    OpenFrame {
        reason: ReadEnd,
        frame_id: u64,
        chunks_seen: u32,
        chunk_count: u32,
        bytes_seen: u32,
        frame_size: u32,
        elapsed_us: u64,
    },
}

/// What a [`TcpReceiver`] stands for.
pub struct TcpModel {
    pub frames: Map<u64, FrameModel>,
    pub chunks_total: u64,
    pub bytes_total: u64,
    pub log: Seq<ServerEvent>,
}

impl TcpModel {
    /// Open frames wait for chunks.
    pub open spec fn wf(self) -> bool {
        forall|id: u64| #[trigger] self.frames.contains_key(id) ==> self.frames[id].pending()
    }

    pub open spec fn logged(self, event: ServerEvent) -> TcpModel {
        TcpModel { log: self.log.push(event), ..self }
    }

    pub open spec fn logged_if(self, enabled: bool, event: ServerEvent) -> TcpModel {
        if enabled {
            self.logged(event)
        } else {
            self
        }
    }

    /// Whether the totals have room for the message.
    pub open spec fn has_room(self, message: WireMessage) -> bool {
        match message {
            WireMessage::Chunk(chunk) => {
                &&& self.chunks_total < u64::MAX
                &&& self.bytes_total + chunk.payload_len <= u64::MAX
            },
            _ => true,
        }
    }
}

/// The acknowledgement of what has arrived of a frame.
pub open spec fn ack_for(
    frame_id: u64,
    frame: FrameModel,
    complete: bool,
    now: u64,
    unix_us: u64,
) -> FrameAckMsg {
    FrameAckMsg {
        frame_id,
        chunks_seen: frame.chunks_seen() as u32,
        chunk_count: frame.chunk_count,
        frame_size: frame.frame_size,
        bytes_seen: frame.bytes_seen,
        complete_unix_us: unix_us,
        receive_elapsed_us: (elapsed(frame.started, now) / 1000) as u64,
        complete,
    }
}

/// Whether a chunk names a place inside its frame.
pub open spec fn well_placed(chunk: ChunkMsg) -> bool {
    chunk.chunk_count != 0 && chunk.chunk_index < chunk.chunk_count
}

/// The receiver with a well-placed chunk counted and its frame open.
pub open spec fn chunk_noted(m: TcpModel, verbose: bool, chunk: ChunkMsg, now: u64) -> TcpModel {
    let counted = TcpModel {
        chunks_total: (m.chunks_total + 1) as u64,
        bytes_total: (m.bytes_total + chunk.payload_len) as u64,
        ..m
    }.logged_if(
        verbose,
        ServerEvent::Chunk {
            frame_id: chunk.frame_id,
            chunk_index: chunk.chunk_index,
            chunk_count: chunk.chunk_count,
            payload_len: chunk.payload_len,
        },
    );
    if m.frames.contains_key(chunk.frame_id) {
        counted
    } else {
        TcpModel {
            frames: m.frames.insert(
                chunk.frame_id,
                FrameModel::opened(0, chunk.frame_size, chunk.chunk_count, chunk.sent_unix_us, now),
            ),
            ..counted
        }.logged(
            ServerEvent::FrameRxStart {
                frame_id: chunk.frame_id,
                chunk_count: chunk.chunk_count,
                frame_size: chunk.frame_size,
                first_chunk_index: chunk.chunk_index,
            },
        )
    }
}

/// Whether the chunk's frame is open in another shape.
pub open spec fn mismatched(m: TcpModel, chunk: ChunkMsg) -> bool {
    let frame = m.frames[chunk.frame_id];
    frame.chunk_count != chunk.chunk_count || frame.frame_size != chunk.frame_size
}

/// The receiver after a chunk of an open frame, and the acknowledgement to send:
/// one for a complete frame, and one whenever the number of chunks seen is a
/// multiple of `ack_every`, unless that is zero.
pub open spec fn chunk_taken(
    m: TcpModel,
    ack_every: u32,
    chunk: ChunkMsg,
    now: u64,
    unix_us: u64,
) -> (TcpModel, Option<FrameAckMsg>) {
    let id = chunk.frame_id;
    let frame = m.frames[id];
    let next = frame.accepted(chunk.chunk_index as int, chunk.payload_len);
    let noted = m.logged_if(
        frame.seen[chunk.chunk_index as int],
        ServerEvent::DuplicateChunk { frame_id: id, chunk_index: chunk.chunk_index },
    );
    if next.complete() {
        (
            TcpModel { frames: m.frames.remove(id), ..noted }.logged(
                ServerEvent::FrameComplete {
                    frame_id: id,
                    chunks_seen: next.chunk_count,
                    chunk_count: next.chunk_count,
                    bytes_seen: next.bytes_seen,
                    sender_first_unix_us: next.first_unix_us,
                    elapsed_us: (elapsed(next.started, now) / 1000) as u64,
                },
            ),
            Some(ack_for(id, next, true, now, unix_us)),
        )
    } else {
        (
            TcpModel { frames: m.frames.insert(id, next), ..noted },
            if ack_every != 0 && next.chunks_seen() % (ack_every as nat) == 0 {
                Some(ack_for(id, next, false, now, unix_us))
            } else {
                None
            },
        )
    }
}

/// The receiver after a chunk, and the acknowledgement to send.
pub open spec fn chunk_handled(
    m: TcpModel,
    config: ServerConfig<String>,
    chunk: ChunkMsg,
    now: u64,
    unix_us: u64,
) -> (TcpModel, Option<FrameAckMsg>) {
    if !well_placed(chunk) {
        (
            m.logged(
                ServerEvent::BadChunk {
                    frame_id: chunk.frame_id,
                    chunk_index: chunk.chunk_index,
                    chunk_count: chunk.chunk_count,
                },
            ),
            None,
        )
    } else {
        let noted = chunk_noted(m, config.verbose_chunks, chunk, now);
        if mismatched(noted, chunk) {
            let frame = noted.frames[chunk.frame_id];
            (
                noted.logged(
                    ServerEvent::FrameMismatch {
                        frame_id: chunk.frame_id,
                        expected_chunks: frame.chunk_count,
                        got_chunks: chunk.chunk_count,
                        expected_size: frame.frame_size,
                        got_size: chunk.frame_size,
                    },
                ),
                None,
            )
        } else {
            chunk_taken(noted, config.ack_every_chunks, chunk, now, unix_us)
        }
    }
}

/// The receiver after a message, the acknowledgement to send, and whether the
/// connection ends.
pub open spec fn message_handled(
    m: TcpModel,
    config: ServerConfig<String>,
    message: WireMessage,
    now: u64,
    unix_us: u64,
) -> (TcpModel, Option<FrameAckMsg>, bool) {
    match message {
        WireMessage::Hello(hello) => (m.logged(ServerEvent::Hello(hello)), None, false),
        WireMessage::Chunk(chunk) => {
            let (next, ack) = chunk_handled(m, config, chunk, now, unix_us);
            (next, ack, false)
        },
        WireMessage::FrameAck(_) => (m.logged(ServerEvent::UnexpectedAck), None, false),
        WireMessage::Bye => (
            m.logged(
                ServerEvent::Bye {
                    chunks_total: m.chunks_total,
                    bytes_total: m.bytes_total,
                    open_frames: m.frames.dom().len() as usize,
                },
            ),
            None,
            true,
        ),
    }
}

pub open spec fn open_frame_event(reason: ReadEnd, frame_id: u64, frame: FrameModel, now: u64) -> ServerEvent {
    ServerEvent::OpenFrame {
        reason,
        frame_id,
        chunks_seen: frame.chunks_seen() as u32,
        chunk_count: frame.chunk_count,
        bytes_seen: frame.bytes_seen,
        frame_size: frame.frame_size,
        elapsed_us: (elapsed(frame.started, now) / 1000) as u64,
    }
}

/// The receiver after the stream has ended: the totals are reported, then every
/// open frame, ascending.
pub open spec fn read_ended(m: TcpModel, end: ReadEnd, now: u64) -> TcpModel {
    TcpModel {
        log: m.log.push(
            ServerEvent::ReadEnded {
                end,
                chunks_total: m.chunks_total,
                bytes_total: m.bytes_total,
                open_frames: m.frames.dom().len() as usize,
            },
        ) + sorted(m.frames.dom()).map_values(
            |id: u64| open_frame_event(end, id, m.frames[id], now),
        ),
        ..m
    }
}

/// What the caller does after a message: write the acknowledgement, then stop
/// where the connection ends.
#[derive(Clone, Copy, Debug, PartialEq, Eq, Structural)]
pub struct Reply {
    pub ack: Option<FrameAckMsg>,
    pub done: bool,
}

/// A TCP receiver. Times are readings of the monotonic clock.
#[derive(Debug)]
pub struct TcpReceiver {
    frames: BTreeMap<u64, FrameRxState>,
    chunks_total: u64,
    bytes_total: u64,
    log: Vec<ServerEvent>,
}

impl View for TcpReceiver {
    type V = TcpModel;

    closed spec fn view(&self) -> TcpModel {
        TcpModel {
            frames: frame_models(self.frames@),
            chunks_total: self.chunks_total,
            bytes_total: self.bytes_total,
            log: self.log@,
        }
    }
}

/// The acknowledgement of what has arrived of a frame.
pub fn make_ack(frame_id: u64, frame: &FrameRxState, complete: bool, now: u64, unix_us: u64) -> (ack: FrameAckMsg)
    requires
        frame.wf(),
    ensures
        ack == ack_for(frame_id, frame@, complete, now, unix_us),
{
    FrameAckMsg {
        frame_id,
        chunks_seen: frame.chunks_seen,
        chunk_count: frame.chunk_count,
        frame_size: frame.frame_size,
        bytes_seen: frame.bytes_seen,
        complete_unix_us: unix_us,
        receive_elapsed_us: elapsed_us(frame.started, now),
        complete,
    }
}

impl TcpReceiver {
    /// The counters of each open frame fit its marks.
    pub closed spec fn wf(&self) -> bool {
        all_pending(self.frames@) && self@.wf()
    }

    pub proof fn lemma_wf(&self)
        requires
            self.wf(),
        ensures
            self@.wf(),
    {
    }

    pub fn new() -> (receiver: TcpReceiver)
        ensures
            receiver.wf(),
            receiver@ == (TcpModel {
                frames: Map::empty(),
                chunks_total: 0,
                bytes_total: 0,
                log: seq![],
            }),
    {
        let receiver = TcpReceiver {
            frames: BTreeMap::new(),
            chunks_total: 0,
            bytes_total: 0,
            log: Vec::new(),
        };
        assert(frame_models(receiver.frames@) =~= Map::empty());
        assert(receiver.log@ =~= seq![]);
        receiver
    }

    /// Whether the totals have room for the message.
    pub fn has_room(&self, message: &WireMessage) -> (room: bool)
        ensures
            room == self@.has_room(*message),
    {
        match message {
            WireMessage::Chunk(chunk) => self.chunks_total < u64::MAX && self.bytes_total <= u64::MAX
                - chunk.payload_len as u64,
            _ => true,
        }
    }

    fn take_chunk(&mut self, ack_every: u32, chunk: &ChunkMsg, now: u64, unix_us: u64) -> (ack: Option<
        FrameAckMsg,
    >)
        requires
            old(self).wf(),
            old(self)@.frames.contains_key(chunk.frame_id),
            !mismatched(old(self)@, *chunk),
            chunk.chunk_index < chunk.chunk_count,
        ensures
            final(self).wf(),
            (final(self)@, ack) == chunk_taken(old(self)@, ack_every, *chunk, now, unix_us),
    {
        broadcast use {
            vstd::std_specs::btree::group_btree_axioms,
            lemma_models_insert,
            lemma_models_remove,
            lemma_models_dom,
        };

        let ghost m = self@;
        let id: u64 = chunk.frame_id;
        let ghost held = self.frames@;
        assert(frame_models(held).contains_key(id) == held.contains_key(id));
        match self.frames.remove(&id) {
            Some(mut frame) => {
                assert(frame_models(held)[id] == held[id]@);
                assert(frame@ == m.frames[id]);
                let ghost next = m.frames[id].accepted(chunk.chunk_index as int, chunk.payload_len);
                if frame.accept(chunk.chunk_index, chunk.payload_len) {
                    self.log.push(
                        ServerEvent::DuplicateChunk { frame_id: id, chunk_index: chunk.chunk_index },
                    );
                }
                proof {
                    lemma_count_bounds(frame.seen@);
                }
                if frame.chunks_seen == frame.chunk_count {
                    let ack = make_ack(id, &frame, true, now, unix_us);
                    self.log.push(
                        ServerEvent::FrameComplete {
                            frame_id: id,
                            chunks_seen: frame.chunks_seen,
                            chunk_count: frame.chunk_count,
                            bytes_seen: frame.bytes_seen,
                            sender_first_unix_us: frame.first_unix_us,
                            elapsed_us: elapsed_us(frame.started, now),
                        },
                    );
                    Some(ack)
                } else {
                    let ack = if ack_every != 0 && frame.chunks_seen % ack_every == 0 {
                        Some(make_ack(id, &frame, false, now, unix_us))
                    } else {
                        None
                    };
                    self.frames.insert(id, frame);
                    assert(frame_models(self.frames@) =~= m.frames.insert(id, next));
                    ack
                }
            },
            None => None,
        }
    }

    fn handle_chunk(
        &mut self,
        config: &ServerConfig<String>,
        chunk: &ChunkMsg,
        now: u64,
        unix_us: u64,
    ) -> (ack: Option<FrameAckMsg>)
        requires
            old(self).wf(),
            old(self)@.has_room(WireMessage::Chunk(*chunk)),
        ensures
            final(self).wf(),
            (final(self)@, ack) == chunk_handled(old(self)@, *config, *chunk, now, unix_us),
    {
        broadcast use {
            vstd::std_specs::btree::group_btree_axioms,
            lemma_models_insert,
            lemma_models_dom,
        };

        if chunk.chunk_count == 0 || chunk.chunk_index >= chunk.chunk_count {
            self.log.push(
                ServerEvent::BadChunk {
                    frame_id: chunk.frame_id,
                    chunk_index: chunk.chunk_index,
                    chunk_count: chunk.chunk_count,
                },
            );
            return None;
        }
        let ghost m = self@;
        self.chunks_total = self.chunks_total + 1;
        self.bytes_total = self.bytes_total + chunk.payload_len as u64;
        if config.verbose_chunks {
            self.log.push(
                ServerEvent::Chunk {
                    frame_id: chunk.frame_id,
                    chunk_index: chunk.chunk_index,
                    chunk_count: chunk.chunk_count,
                    payload_len: chunk.payload_len,
                },
            );
        }
        assert(self@.frames == m.frames);
        assert(frame_models(self.frames@).contains_key(chunk.frame_id) == self.frames@.contains_key(
            chunk.frame_id,
        ));
        if !self.frames.contains_key(&chunk.frame_id) {
            let frame = FrameRxState::open(
                0,
                chunk.frame_size,
                chunk.chunk_count,
                chunk.sent_unix_us,
                now,
            );
            self.frames.insert(chunk.frame_id, frame);
            self.log.push(
                ServerEvent::FrameRxStart {
                    frame_id: chunk.frame_id,
                    chunk_count: chunk.chunk_count,
                    frame_size: chunk.frame_size,
                    first_chunk_index: chunk.chunk_index,
                },
            );
        }
        let ghost noted = self@;
        assert(noted == chunk_noted(m, config.verbose_chunks, *chunk, now));
        assert(self.wf());
        assert(noted.frames.contains_key(chunk.frame_id));
        if let Some(frame) = self.frames.get(&chunk.frame_id) {
            assert(frame_models(self.frames@)[chunk.frame_id] == frame@);
            if frame.chunk_count != chunk.chunk_count || frame.frame_size != chunk.frame_size {
                let event = ServerEvent::FrameMismatch {
                    frame_id: chunk.frame_id,
                    expected_chunks: frame.chunk_count,
                    got_chunks: chunk.chunk_count,
                    expected_size: frame.frame_size,
                    got_size: chunk.frame_size,
                };
                self.log.push(event);
                return None;
            }
        }
        self.take_chunk(config.ack_every_chunks, chunk, now, unix_us)
    }

    /// Handles a message.
    pub fn on_message(
        &mut self,
        config: &ServerConfig<String>,
        message: &WireMessage,
        now: u64,
        unix_us: u64,
    ) -> (reply: Reply)
        requires
            old(self).wf(),
            old(self)@.has_room(*message),
        ensures
            final(self).wf(),
            (final(self)@, reply.ack, reply.done) == message_handled(
                old(self)@,
                *config,
                *message,
                now,
                unix_us,
            ),
    {
        broadcast use {vstd::std_specs::btree::group_btree_axioms, lemma_models_dom};

        match message {
            WireMessage::Hello(hello) => {
                self.log.push(ServerEvent::Hello(*hello));
                Reply { ack: None, done: false }
            },
            WireMessage::Chunk(chunk) => {
                let ack = self.handle_chunk(config, chunk, now, unix_us);
                Reply { ack, done: false }
            },
            WireMessage::FrameAck(_) => {
                self.log.push(ServerEvent::UnexpectedAck);
                Reply { ack: None, done: false }
            },
            WireMessage::Bye => {
                let open_frames: usize = self.frames.len();
                self.log.push(
                    ServerEvent::Bye {
                        chunks_total: self.chunks_total,
                        bytes_total: self.bytes_total,
                        open_frames,
                    },
                );
                Reply { ack: None, done: true }
            },
        }
    }

    /// Reports the totals and the open frames at the end of the stream.
    pub fn on_read_end(&mut self, end: ReadEnd, now: u64)
        requires
            old(self).wf(),
        ensures
            final(self).wf(),
            final(self)@ == read_ended(old(self)@, end, now),
    {
        broadcast use {vstd::std_specs::btree::group_btree_axioms, lemma_models_dom};

        let ghost m = self@;
        let open_frames: usize = self.frames.len();
        self.log.push(
            ServerEvent::ReadEnded {
                end,
                chunks_total: self.chunks_total,
                bytes_total: self.bytes_total,
                open_frames,
            },
        );
        let ghost first = self.log@;
        let ids = sorted_keys(&self.frames);
        let ghost show = |id: u64| open_frame_event(end, id, m.frames[id], now);
        let mut i: usize = 0;
        assert(first + ids@.take(0).map_values(show) =~= first);
        while i < ids.len()
            invariant
                i <= ids.len(),
                lists(ids@, m.frames.dom()),
                all_pending(self.frames@),
                frame_models(self.frames@) == m.frames,
                show == (|id: u64| open_frame_event(end, id, m.frames[id], now)),
                self.log@ == first + ids@.take(i as int).map_values(show),
                self@ == (TcpModel { log: self.log@, ..m }),
            decreases ids.len() - i,
        {
            let id: u64 = ids[i];
            assert(ids@.to_set().contains(id));
            assert(frame_models(self.frames@).contains_key(id));
            if let Some(frame) = self.frames.get(&id) {
                assert(frame_models(self.frames@)[id] == frame@);
                let event = ServerEvent::OpenFrame {
                    reason: end,
                    frame_id: id,
                    chunks_seen: frame.chunks_seen,
                    chunk_count: frame.chunk_count,
                    bytes_seen: frame.bytes_seen,
                    frame_size: frame.frame_size,
                    elapsed_us: elapsed_us(frame.started, now),
                };
                self.log.push(event);
            }
            assert(self.log@ =~= first + ids@.take(i + 1).map_values(show));
            i += 1;
        }
        assert(ids@.take(i as int) =~= ids@);
    }

    /// Hands out what has been reported since the last call.
    pub fn take_log(&mut self) -> (log: Vec<ServerEvent>)
        requires
            old(self).wf(),
        ensures
            final(self).wf(),
            log@ == old(self)@.log,
            final(self)@ == (TcpModel { log: seq![], ..old(self)@ }),
    {
        let mut log: Vec<ServerEvent> = Vec::new();
        log.append(&mut self.log);
        assert(log@ =~= old(self)@.log);
        assert(self.log@ =~= seq![]);
        log
    }
}

/// Whatever message arrives, open frames wait for chunks.
pub proof fn law_message_keeps_invariant(
    m: TcpModel,
    config: ServerConfig<String>,
    message: WireMessage,
    now: u64,
    unix_us: u64,
)
    requires
        m.wf(),
    ensures
        message_handled(m, config, message, now, unix_us).0.wf(),
{
    if let WireMessage::Chunk(chunk) = message {
        if well_placed(chunk) {
            let noted = chunk_noted(m, config.verbose_chunks, chunk, now);
            let fresh = FrameModel::opened(
                0,
                chunk.frame_size,
                chunk.chunk_count,
                chunk.sent_unix_us,
                now,
            );
            lemma_count_bounds(fresh.seen);
            assert(noted.wf());
            if !mismatched(noted, chunk) {
                let frame = noted.frames[chunk.frame_id];
                law_accept_chunk(frame, chunk.chunk_index as int, chunk.payload_len);
                lemma_count_bounds(
                    frame.accepted(chunk.chunk_index as int, chunk.payload_len).seen,
                );
            }
        }
    }
}

/// The last missing chunk of a frame, and no other, is answered by an
/// acknowledgement of the complete frame, and the frame is then forgotten.
pub proof fn law_complete_frame_is_acknowledged(
    m: TcpModel,
    ack_every: u32,
    chunk: ChunkMsg,
    now: u64,
    unix_us: u64,
)
    requires
        m.wf(),
        m.frames.contains_key(chunk.frame_id),
        !mismatched(m, chunk),
        chunk.chunk_index < chunk.chunk_count,
    ensures
        ({
            let frame = m.frames[chunk.frame_id];
            let (next, ack) = chunk_taken(m, ack_every, chunk, now, unix_us);
            let last_one = forall|i: int|
                0 <= i < frame.chunk_count && i != chunk.chunk_index ==> frame.seen[i];
            &&& (ack matches Some(ack) && ack.complete) <==> last_one
            &&& last_one ==> ack->0.chunks_seen == frame.chunk_count && ack->0.frame_size
                == frame.frame_size && ack->0.frame_id == chunk.frame_id
            &&& next.frames.contains_key(chunk.frame_id) <==> !last_one
        }),
{
    let frame = m.frames[chunk.frame_id];
    let index = chunk.chunk_index as int;
    let after = frame.accepted(index, chunk.payload_len);
    law_accept_chunk(frame, index, chunk.payload_len);
    law_accept_chunk(after, index, chunk.payload_len);
    lemma_count_bounds(frame.seen);
    assert(forall|i: int| 0 <= i < frame.chunk_count ==> after.seen[i] == (i == index || frame.seen[i]));
    let last_one = forall|i: int|
        0 <= i < frame.chunk_count && i != chunk.chunk_index ==> frame.seen[i];
    if after.complete() {
        assert(last_one);
    }
}

// ---------------------------------------------------------------------------
// Read pauses
// ---------------------------------------------------------------------------

/// When the receiver stops reading for a while, in milliseconds since its start.
#[derive(Clone, Copy, Debug, PartialEq, Eq, Structural)]
pub struct PauseSchedule {
    /// When the next pause is due, if any.
    pub next_after_ms: Option<u64>,
    pub taken: u64,
}

/// The pause that is `repeats` intervals behind the one at `after_ms`.
pub open spec fn pause_time(after_ms: u64, repeat_ms: u64, repeats: nat) -> u64 {
    saturating_sum(after_ms as int, repeats * repeat_ms)
}

/// Whether `next` is the first pause of the row behind `after_ms` that lies after
/// `elapsed_ms`, or the end of time where there is none.
pub open spec fn is_next_pause(after_ms: u64, repeat_ms: u64, elapsed_ms: u64, next: u64) -> bool {
    exists|repeats: nat| #[trigger]
        is_next_pause_by(after_ms, repeat_ms, elapsed_ms, next, repeats)
}

pub open spec fn is_next_pause_by(
    after_ms: u64,
    repeat_ms: u64,
    elapsed_ms: u64,
    next: u64,
    repeats: nat,
) -> bool {
    &&& repeats >= 1
    &&& next == pause_time(after_ms, repeat_ms, repeats)
    &&& next > elapsed_ms || next == u64::MAX
    &&& forall|fewer: nat|
        1 <= fewer < repeats ==> #[trigger] pause_time(after_ms, repeat_ms, fewer) <= elapsed_ms
}

impl PauseSchedule {
    /// No pause where its duration is zero.
    pub fn new(config: &ServerConfig<String>) -> (schedule: PauseSchedule)
        ensures
            schedule.taken == 0,
            schedule.next_after_ms == if config.pause_read_duration_ms == 0 {
                None
            } else {
                Some(config.pause_read_after_ms)
            },
    {
        PauseSchedule {
            next_after_ms: if config.pause_read_duration_ms == 0 {
                None
            } else {
                Some(config.pause_read_after_ms)
            },
            taken: 0,
        }
    }

    /// Whether a pause is due.
    pub fn due(&self, elapsed_ms: u64) -> (due: bool)
        ensures
            due == (self.next_after_ms matches Some(after_ms) && elapsed_ms >= after_ms),
    {
        match self.next_after_ms {
            Some(after_ms) => elapsed_ms >= after_ms,
            None => false,
        }
    }

    /// Takes note of a pause and plans the next one: the first of the row that
    /// still lies ahead, none where pauses do not repeat.
    pub fn paused(&mut self, config: &ServerConfig<String>, elapsed_ms: u64)
        requires
            old(self).next_after_ms is Some,
        ensures
            final(self).taken == saturating_sum(old(self).taken as int, 1),
            config.pause_read_repeat_ms == 0 ==> final(self).next_after_ms is None,
            config.pause_read_repeat_ms != 0 ==> {
                &&& final(self).next_after_ms is Some
                &&& is_next_pause(
                    old(self).next_after_ms->0,
                    config.pause_read_repeat_ms,
                    elapsed_ms,
                    final(self).next_after_ms->0,
                )
            },
    {
        self.taken = self.taken.saturating_add(1);
        let repeat_ms: u64 = config.pause_read_repeat_ms;
        if repeat_ms == 0 {
            self.next_after_ms = None;
            return;
        }
        let after_ms: u64 = match self.next_after_ms {
            Some(after_ms) => after_ms,
            None => 0,
        };
        let mut next: u64 = after_ms.saturating_add(repeat_ms);
        let ghost mut repeats: nat = 1;
        assert(1nat * repeat_ms == repeat_ms);
        while next <= elapsed_ms && next != u64::MAX
            invariant
                repeats >= 1,
                repeat_ms > 0,
                next == pause_time(after_ms, repeat_ms, repeats),
                forall|fewer: nat|
                    1 <= fewer < repeats ==> #[trigger] pause_time(after_ms, repeat_ms, fewer)
                        <= elapsed_ms,
            decreases u64::MAX - next,
        {
            proof {
                assert((repeats + 1) * repeat_ms == repeats * repeat_ms + repeat_ms) by (nonlinear_arith);
                repeats = repeats + 1;
            }
            next = next.saturating_add(repeat_ms);
        }
        assert(is_next_pause_by(after_ms, repeat_ms, elapsed_ms, next, repeats));
        self.next_after_ms = Some(next);
    }
}

/// Where pauses repeat, the next one lies ahead, or at the end of time.
pub proof fn law_next_pause_lies_ahead(after_ms: u64, repeat_ms: u64, elapsed_ms: u64, next: u64)
    requires
        is_next_pause(after_ms, repeat_ms, elapsed_ms, next),
    ensures
        next > elapsed_ms || next == u64::MAX,
        next >= after_ms,
{
    let repeats = choose|repeats: nat| #[trigger]
        is_next_pause_by(after_ms, repeat_ms, elapsed_ms, next, repeats);
    assert(repeats * repeat_ms >= 0) by (nonlinear_arith)
        requires
            repeats >= 0,
            repeat_ms >= 0,
    ;
}

} // verus!
