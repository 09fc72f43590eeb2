//! The TCP sender: flow control, pacing and the steps of a run. The caller owns
//! the stream, the clock and the lock around the flow state.
use std::collections::BTreeMap;
use vstd::prelude::*;

use crate::netprobe::clock::{
    elapsed, elapsed_ns, elapsed_us, saturating_mul, saturating_product, saturating_sum,
};
use crate::netprobe::config::{client_fault, ClientConfig, SendMode};
use crate::netprobe::wire::{
    ceil_div, chunk_len, chunk_payload_len, div_ceil_u32, fill_payload, payload_bytes, ChunkMsg, FrameAckMsg,
    HelloMsg, WireMessage,
};

verus! {

// ---------------------------------------------------------------------------
// Flow control
// ---------------------------------------------------------------------------

/// What is on its way and what has been acknowledged.
#[derive(Debug)]
pub struct FlowState {
    pub inflight_bytes: u64,
    pub acked_frames: u64,
    pub acked_bytes: u64,
    /// The acknowledged bytes of frames that are not complete yet.
    pub acked_frame_bytes: BTreeMap<u64, u64>,
}

/// What a [`FlowState`] stands for.
pub struct FlowModel {
    pub inflight_bytes: u64,
    pub acked_frames: u64,
    pub acked_bytes: u64,
    pub acked_frame_bytes: Map<u64, u64>,
}

impl View for FlowState {
    type V = FlowModel;

    open spec fn view(&self) -> FlowModel {
        FlowModel {
            inflight_bytes: self.inflight_bytes,
            acked_frames: self.acked_frames,
            acked_bytes: self.acked_bytes,
            acked_frame_bytes: self.acked_frame_bytes@,
        }
    }
}

impl FlowModel {
    /// The bytes of a frame that partial acknowledgements have covered.
    pub open spec fn acked_of(self, frame_id: u64) -> u64 {
        if self.acked_frame_bytes.contains_key(frame_id) {
            self.acked_frame_bytes[frame_id]
        } else {
            0
        }
    }

    /// The bytes that an acknowledgement covers for the first time.
    pub open spec fn newly_acked(self, ack: FrameAckMsg) -> u64 {
        if ack.bytes_seen > self.acked_of(ack.frame_id) {
            (ack.bytes_seen - self.acked_of(ack.frame_id)) as u64
        } else {
            0
        }
    }

    /// The flow after an acknowledgement.
    pub open spec fn acknowledged(self, ack: FrameAckMsg) -> FlowModel {
        let newly = self.newly_acked(ack);
        FlowModel {
            inflight_bytes: if self.inflight_bytes > newly {
                (self.inflight_bytes - newly) as u64
            } else {
                0
            },
            acked_frames: if ack.complete {
                (self.acked_frames + 1) as u64
            } else {
                self.acked_frames
            },
            acked_bytes: saturating_sum(self.acked_bytes as int, newly as int),
            acked_frame_bytes: if ack.complete {
                self.acked_frame_bytes.remove(ack.frame_id)
            } else if newly > 0 {
                self.acked_frame_bytes.insert(ack.frame_id, ack.bytes_seen as u64)
            } else {
                self.acked_frame_bytes
            },
        }
    }
}

/// Whether a request for room in the window is settled.
#[derive(Clone, Copy, Debug, PartialEq, Eq, Structural)]
pub enum Reservation {
    /// The bytes are on their way.
    Granted,
    /// The frame is skipped.
    Dropped,
    /// The wait took too long.
    TimedOut,
    /// Wait for an acknowledgement, at most this many nanoseconds, and ask again.
    Wait { nanos: u64 },
}

/// Whether the window has room for `bytes` more.
pub open spec fn fits_window(flow: FlowModel, window_bytes: u64, bytes: u64) -> bool {
    flow.inflight_bytes + bytes <= window_bytes
}

/// How a request for room ends where the wait took too long.
pub open spec fn overdue(allow_drop: bool) -> Reservation {
    if allow_drop {
        Reservation::Dropped
    } else {
        Reservation::TimedOut
    }
}

/// The flow and the answer to a request for room, after `waited_ns` of waiting;
/// `wait_timed_out` says whether the last wait ended without an acknowledgement.
pub open spec fn reservation(
    flow: FlowModel,
    config: ClientConfig<String>,
    bytes: u64,
    allow_drop: bool,
    waited_ns: u64,
    wait_timed_out: bool,
) -> (FlowModel, Reservation) {
    let limit_ns = config.window_wait_ms * 1_000_000;
    if config.mode != SendMode::Window {
        (flow, Reservation::Granted)
    } else if config.window_wait_ms != 0 && wait_timed_out && waited_ns >= limit_ns {
        (flow, overdue(allow_drop))
    } else if saturating_sum(flow.inflight_bytes as int, bytes as int) <= config.window_bytes {
        (
            FlowModel {
                inflight_bytes: saturating_sum(flow.inflight_bytes as int, bytes as int),
                ..flow
            },
            Reservation::Granted,
        )
    } else if config.window_wait_ms == 0 {
        if allow_drop {
            (flow, Reservation::Dropped)
        } else {
            (flow, Reservation::Wait { nanos: 200_000_000 })
        }
    } else if waited_ns >= limit_ns {
        (flow, overdue(allow_drop))
    } else {
        (
            flow,
            Reservation::Wait {
                nanos: if limit_ns - waited_ns < 200_000_000 {
                    (limit_ns - waited_ns) as u64
                } else {
                    200_000_000
                },
            },
        )
    }
}

impl FlowState {
    pub fn new() -> (flow: FlowState)
        ensures
            flow@ == (FlowModel {
                inflight_bytes: 0,
                acked_frames: 0,
                acked_bytes: 0,
                acked_frame_bytes: Map::empty(),
            }),
    {
        FlowState {
            inflight_bytes: 0,
            acked_frames: 0,
            acked_bytes: 0,
            acked_frame_bytes: BTreeMap::new(),
        }
    }

    /// Takes an acknowledgement; returns the bytes that it covers for the first
    /// time.
    pub fn on_ack(&mut self, ack: &FrameAckMsg) -> (newly: u64)
        requires
            ack.complete ==> old(self).acked_frames < u64::MAX,
        ensures
            final(self)@ == old(self)@.acknowledged(*ack),
            newly == old(self)@.newly_acked(*ack),
    {
        broadcast use vstd::std_specs::btree::group_btree_axioms;

        let seen: u64 = ack.bytes_seen as u64;
        let previous: u64 = match self.acked_frame_bytes.get(&ack.frame_id) {
            Some(bytes) => *bytes,
            None => 0,
        };
        let mut newly: u64 = 0;
        if seen > previous {
            newly = seen - previous;
            self.inflight_bytes = self.inflight_bytes.saturating_sub(newly);
            self.acked_bytes = self.acked_bytes.saturating_add(newly);
            if !ack.complete {
                self.acked_frame_bytes.insert(ack.frame_id, seen);
            }
        }
        if ack.complete {
            self.acked_frames = self.acked_frames + 1;
            self.acked_frame_bytes.remove(&ack.frame_id);
        }
        newly
    }

    /// Asks for room for `bytes` in the window, after `waited_ns` of waiting.
    pub fn reserve_window_capacity(
        &mut self,
        config: &ClientConfig<String>,
        bytes: u64,
        allow_drop: bool,
        waited_ns: u64,
        wait_timed_out: bool,
    ) -> (answer: Reservation)
        ensures
            (final(self)@, answer) == reservation(
                old(self)@,
                *config,
                bytes,
                allow_drop,
                waited_ns,
                wait_timed_out,
            ),
    {
        if config.mode != SendMode::Window {
            return Reservation::Granted;
        }
        let limit_ns: u128 = config.window_wait_ms as u128 * 1_000_000;
        let waited: u128 = waited_ns as u128;
        if config.window_wait_ms != 0 && wait_timed_out && waited >= limit_ns {
            return if allow_drop { Reservation::Dropped } else { Reservation::TimedOut };
        }
        let inflight: u64 = self.inflight_bytes.saturating_add(bytes);
        if inflight <= config.window_bytes {
            self.inflight_bytes = inflight;
            return Reservation::Granted;
        }
        if config.window_wait_ms == 0 {
            return if allow_drop {
                Reservation::Dropped
            } else {
                Reservation::Wait { nanos: 200_000_000 }
            };
        }
        if waited >= limit_ns {
            return if allow_drop { Reservation::Dropped } else { Reservation::TimedOut };
        }
        let remaining: u128 = limit_ns - waited;
        if remaining < 200_000_000 {
            Reservation::Wait { nanos: remaining as u64 }
        } else {
            Reservation::Wait { nanos: 200_000_000 }
        }
    }

    /// Asks for room for one chunk; a chunk is never dropped.
    pub fn reserve_window(
        &mut self,
        config: &ClientConfig<String>,
        payload_len: u32,
        waited_ns: u64,
        wait_timed_out: bool,
    ) -> (answer: Reservation)
        ensures
            (final(self)@, answer) == reservation(
                old(self)@,
                *config,
                payload_len as u64,
                false,
                waited_ns,
                wait_timed_out,
            ),
            answer != Reservation::Dropped,
    {
        self.reserve_window_capacity(config, payload_len as u64, false, waited_ns, wait_timed_out)
    }
}

/// In window mode what is on its way stays within the window: where room is
/// granted, the bytes fit, and they are counted.
pub proof fn law_window_is_kept(
    flow: FlowModel,
    config: ClientConfig<String>,
    bytes: u64,
    allow_drop: bool,
    waited_ns: u64,
    wait_timed_out: bool,
)
    requires
        config.mode == SendMode::Window,
        flow.inflight_bytes <= config.window_bytes,
        config.window_bytes < u64::MAX,
    ensures
        ({
            let (next, answer) = reservation(
                flow,
                config,
                bytes,
                allow_drop,
                waited_ns,
                wait_timed_out,
            );
            &&& next.inflight_bytes <= config.window_bytes
            &&& answer is Granted ==> next.inflight_bytes == flow.inflight_bytes + bytes
            &&& !(answer is Granted) ==> next == flow
        }),
{
}

/// An acknowledgement never adds to what is on its way.
pub proof fn law_ack_drains(flow: FlowModel, ack: FrameAckMsg)
    ensures
        flow.acknowledged(ack).inflight_bytes <= flow.inflight_bytes,
{
}

/// Skipping a frame instead of waiting is possible only where it was asked for,
/// and with room in the window a frame is never skipped on the first request.
pub proof fn law_drop_only_on_full_window(
    flow: FlowModel,
    config: ClientConfig<String>,
    bytes: u64,
    allow_drop: bool,
    waited_ns: u64,
    wait_timed_out: bool,
)
    requires
        reservation(flow, config, bytes, allow_drop, waited_ns, wait_timed_out).1 is Dropped,
    ensures
        allow_drop,
        config.mode == SendMode::Window,
        !fits_window(flow, config.window_bytes, bytes) || wait_timed_out,
{
}

/// Each byte of a frame is acknowledged once: after a partial acknowledgement a
/// later one of the frame counts only what it adds.
pub proof fn law_bytes_are_acked_once(flow: FlowModel, first: FrameAckMsg, second: FrameAckMsg)
    requires
        first.frame_id == second.frame_id,
        !first.complete,
        first.bytes_seen <= second.bytes_seen,
        flow.acked_of(first.frame_id) <= first.bytes_seen,
    ensures
        flow.newly_acked(first) + flow.acknowledged(first).newly_acked(second) == second.bytes_seen
            - flow.acked_of(first.frame_id),
{
}

/// What a client does with what the server sent.
#[derive(Clone, Copy, Debug, PartialEq, Eq, Structural)]
pub enum AckStep {
    /// Take the acknowledgement.
    Acknowledge(FrameAckMsg),
    /// The server has closed the stream or said goodbye.
    Ended,
    /// Report the message.
    Unexpected(WireMessage),
}

/// What a client does with the next message of a server, nothing at the end of
/// the stream.
pub fn ack_step(message: Option<WireMessage>) -> (step: AckStep)
    ensures
        step == match message {
            Some(WireMessage::FrameAck(ack)) => AckStep::Acknowledge(ack),
            Some(WireMessage::Bye) => AckStep::Ended,
            None => AckStep::Ended,
            Some(other) => AckStep::Unexpected(other),
        },
{
    match message {
        Some(WireMessage::FrameAck(ack)) => AckStep::Acknowledge(ack),
        Some(WireMessage::Bye) => AckStep::Ended,
        None => AckStep::Ended,
        Some(other) => AckStep::Unexpected(other),
    }
}

// ---------------------------------------------------------------------------
// The plan of frames
// ---------------------------------------------------------------------------

/// The smaller of a number and the largest `u32`.
pub open spec fn capped32(value: u64) -> u32 {
    if value > u32::MAX {
        u32::MAX
    } else {
        value as u32
    }
}

fn cap32(value: u64) -> (capped: u32)
    ensures
        capped == capped32(value),
{
    if value > u32::MAX as u64 {
        u32::MAX
    } else {
        value as u32
    }
}

/// What a client says of itself first.
pub open spec fn greeting(config: ClientConfig<String>) -> HelloMsg {
    HelloMsg {
        chunk_size: config.chunk_size,
        frame_size: config.frame_size,
        fps: config.fps,
        duration_sec: capped32(config.duration_sec),
        window_bytes: capped32(config.window_bytes),
        mode: config.mode.code(),
    }
}

/// What a client says of itself first.
pub fn hello_message(config: &ClientConfig<String>) -> (hello: HelloMsg)
    ensures
        hello == greeting(*config),
{
    HelloMsg {
        chunk_size: config.chunk_size,
        frame_size: config.frame_size,
        fps: config.fps,
        duration_sec: cap32(config.duration_sec),
        window_bytes: cap32(config.window_bytes),
        mode: config.mode.wire(),
    }
}

/// The number of frames of a run.
pub fn frame_count_target(duration_sec: u64, fps: u32) -> (target: u64)
    ensures
        target == saturating_product(duration_sec as int, fps as int),
{
    saturating_mul(duration_sec, fps as u64)
}

/// The time between two frames, in nanoseconds.
pub fn frame_period_ns(fps: u32) -> (period: u64)
    requires
        fps > 0,
    ensures
        period == 1_000_000_000int / fps as int,
{
    1_000_000_000 / fps as u64
}

/// When the next frame is due, as a reading of the monotonic clock.
#[derive(Clone, Copy, Debug, PartialEq, Eq, Structural)]
pub struct FrameSchedule {
    pub next: u64,
}

/// When the next frame is due after one more period, and how long to sleep until
/// then; nothing where that time is over and the schedule starts anew. No frame
/// is due later than the clock can show.
pub open spec fn next_due(due: u64, period_ns: u64, now: u64) -> (u64, Option<u64>) {
    let next = saturating_sum(due as int, period_ns as int);
    if next >= now {
        (next, Some((next - now) as u64))
    } else {
        (now, None)
    }
}

impl FrameSchedule {
    /// Moves on by one period; returns how long to sleep until then, or nothing
    /// where that time is over and the schedule starts anew.
    pub fn advance(&mut self, period_ns: u64, now: u64) -> (sleep_ns: Option<u64>)
        ensures
            (final(self).next, sleep_ns) == next_due(old(self).next, period_ns, now),
    {
        let due: u64 = self.next.saturating_add(period_ns);
        if due >= now {
            self.next = due;
            Some(due - now)
        } else {
            self.next = now;
            None
        }
    }
}

/// What a sender reports of its frames.
#[derive(Clone, Copy, Debug, PartialEq, Eq, Structural)]
pub enum FrameEvent {
    Start { frame_id: u64, chunk_count: u32, frame_size: u32 },
    ChunkSent { frame_id: u64, chunk_index: u32, chunk_count: u32, payload_len: u32 },
    Sent { frame_id: u64, chunks_sent: u32, bytes_sent: u32, elapsed_us: u64 },
    Skipped { frame_id: u64, frame_size: u32, window_bytes: u64, window_wait_ms: u64 },
    Late { frame_id: u64, elapsed_ms: u64 },
}

/// Whether the sender pauses after so many chunks of a frame.
pub open spec fn pause_due(pace_every: u32, pace_us: u64, chunks_sent: u32, chunk_count: u32) -> bool {
    &&& pace_every != 0
    &&& pace_us != 0
    &&& chunks_sent < chunk_count
    &&& chunks_sent % pace_every == 0
}

/// How long a paced UDP sender pauses after a chunk, in microseconds.
pub fn maybe_pace_udp(pace_every: u32, pace_us: u64, chunks_sent: u32, chunk_count: u32) -> (pause_us: Option<
    u64,
>)
    ensures
        pause_us == if pause_due(pace_every, pace_us, chunks_sent, chunk_count) {
            Some(pace_us)
        } else {
            None
        },
{
    if pace_every == 0 || pace_us == 0 || chunks_sent >= chunk_count {
        return None;
    }
    if chunks_sent % pace_every == 0 {
        Some(pace_us)
    } else {
        None
    }
}

/// How long a TCP sender pauses after a chunk, in microseconds; never in burst
/// mode.
pub fn maybe_pace(config: &ClientConfig<String>, chunks_sent: u32, chunk_count: u32) -> (pause_us: Option<
    u64,
>)
    ensures
        pause_us == if config.mode != SendMode::Burst && pause_due(
            config.pace_every,
            config.pace_us,
            chunks_sent,
            chunk_count,
        ) {
            Some(config.pace_us)
        } else {
            None
        },
{
    if config.mode == SendMode::Burst {
        None
    } else {
        maybe_pace_udp(config.pace_every, config.pace_us, chunks_sent, chunk_count)
    }
}

/// A chunk with its payload, ready to be written.
#[derive(Debug)]
pub struct OutgoingChunk {
    pub chunk: ChunkMsg,
    pub payload: Vec<u8>,
}

/// The header of a chunk of a frame.
pub open spec fn outgoing_chunk(
    config: ClientConfig<String>,
    frame_id: u64,
    index: u32,
    unix_us: u64,
) -> ChunkMsg {
    ChunkMsg {
        frame_id,
        chunk_index: index,
        chunk_count: ceil_div(config.frame_size as int, config.chunk_size as int) as u32,
        frame_size: config.frame_size,
        sent_unix_us: unix_us,
        payload_len: chunk_len(config.frame_size as int, config.chunk_size as int, index as int) as u32,
    }
}

/// How what the sender asked for has ended.
#[derive(Clone, Copy, Debug, PartialEq, Eq, Structural)]
pub enum TcpEvent {
    /// What was to be done has been done.
    Written,
    /// The room in the window is granted.
    Granted,
    /// The frame is not to be sent.
    Dropped,
}

/// What a sender does next.
#[derive(Clone, Copy, Debug, PartialEq, Eq, Structural)]
pub enum TcpPhase {
    /// Say who is sending.
    Start,
    /// Set the clock for the first frame.
    Opened,
    /// Open the next frame, or say goodbye.
    Frame,
    /// Send or skip the frame for which room was asked.
    Reserving,
    /// Wait for the frame after the one that was skipped.
    Skipped,
    /// Send the next chunk of the frame, or close the frame.
    Next,
    /// Write the chunk made at `unix_us` for which room was asked.
    Reserved { unix_us: u64 },
    /// Count and report the chunk that was written, and pace.
    Sent { index: u32, payload_len: u32 },
    /// Nothing is left to do.
    Ended,
}

impl TcpPhase {
    /// Whether a frame is being sent.
    pub open spec fn in_frame(self) -> bool {
        self is Reserving || self is Next || self is Reserved || self is Sent
    }
}

/// What the caller of a sender has to do.
#[derive(Debug)]
pub enum TcpAction {
    /// Write who is sending.
    Hello(HelloMsg),
    /// Ask for room for a whole frame; the frame may be dropped.
    ReserveFrame { bytes: u64 },
    /// Ask for room for a chunk; a chunk is never dropped.
    ReserveChunk { bytes: u64 },
    /// Write a chunk.
    Write(OutgoingChunk),
    /// The frame is skipped; go on.
    Skip,
    /// Pause between two chunks.
    Pause { us: u64 },
    /// Sleep until the next frame is due.
    Sleep { ns: u64 },
    /// The next frame is late; go on.
    Late,
    /// Write that the stream ends.
    Bye,
    /// The run is over.
    Done,
}

/// What a [`TcpAction`] stands for.
pub enum TcpActionModel {
    Hello(HelloMsg),
    ReserveFrame { bytes: u64 },
    ReserveChunk { bytes: u64 },
    Write { chunk: ChunkMsg, payload: Seq<u8> },
    Skip,
    Pause { us: u64 },
    Sleep { ns: u64 },
    Late,
    Bye,
    Done,
}

impl View for TcpAction {
    type V = TcpActionModel;

    open spec fn view(&self) -> TcpActionModel {
        match self {
            TcpAction::Hello(hello) => TcpActionModel::Hello(*hello),
            TcpAction::ReserveFrame { bytes } => TcpActionModel::ReserveFrame { bytes: *bytes },
            TcpAction::ReserveChunk { bytes } => TcpActionModel::ReserveChunk { bytes: *bytes },
            TcpAction::Write(out) => TcpActionModel::Write { chunk: out.chunk, payload: out.payload@ },
            TcpAction::Skip => TcpActionModel::Skip,
            TcpAction::Pause { us } => TcpActionModel::Pause { us: *us },
            TcpAction::Sleep { ns } => TcpActionModel::Sleep { ns: *ns },
            TcpAction::Late => TcpActionModel::Late,
            TcpAction::Bye => TcpActionModel::Bye,
            TcpAction::Done => TcpActionModel::Done,
        }
    }
}

/// What a TCP sender has done, and what it does next.
#[derive(Debug)]
pub struct TcpSender {
    pub frames_sent: u64,
    pub frames_skipped: u64,
    pub chunks_sent: u64,
    pub bytes_sent: u64,
    pub phase: TcpPhase,
    /// The next chunk of the current frame.
    pub next_chunk: u32,
    /// When the run began.
    pub started: u64,
    /// When the current frame began.
    pub frame_started: u64,
    /// When the next frame is due.
    pub schedule: FrameSchedule,
    /// What has been reported and not been handed out yet.
    pub log: Vec<FrameEvent>,
}

/// What a [`TcpSender`] stands for.
pub struct TcpSenderModel {
    pub frames_sent: u64,
    pub frames_skipped: u64,
    pub chunks_sent: u64,
    pub bytes_sent: u64,
    pub phase: TcpPhase,
    pub next_chunk: u32,
    pub started: u64,
    pub frame_started: u64,
    pub due: u64,
    pub log: Seq<FrameEvent>,
}

impl View for TcpSender {
    type V = TcpSenderModel;

    open spec fn view(&self) -> TcpSenderModel {
        TcpSenderModel {
            frames_sent: self.frames_sent,
            frames_skipped: self.frames_skipped,
            chunks_sent: self.chunks_sent,
            bytes_sent: self.bytes_sent,
            phase: self.phase,
            next_chunk: self.next_chunk,
            started: self.started,
            frame_started: self.frame_started,
            due: self.schedule.next,
            log: self.log@,
        }
    }
}

impl TcpSenderModel {
    /// While a frame is being sent it is not the last one that can be counted.
    pub open spec fn wf(self) -> bool {
        self.phase.in_frame() ==> self.frames_sent < u64::MAX
    }

    /// Whether the chunk that was written can be counted.
    pub open spec fn has_room(self) -> bool {
        match self.phase {
            TcpPhase::Sent { payload_len, .. } => {
                &&& self.chunks_sent < u64::MAX
                &&& self.bytes_sent + payload_len <= u64::MAX
            },
            _ => true,
        }
    }

    pub open spec fn logged(self, event: FrameEvent) -> TcpSenderModel {
        TcpSenderModel { log: self.log.push(event), ..self }
    }
}

/// A sender that has sent nothing.
pub open spec fn fresh_stream() -> TcpSenderModel {
    TcpSenderModel {
        frames_sent: 0,
        frames_skipped: 0,
        chunks_sent: 0,
        bytes_sent: 0,
        phase: TcpPhase::Start,
        next_chunk: 0,
        started: 0,
        frame_started: 0,
        due: 0,
        log: seq![],
    }
}

/// The number of chunks of a frame.
pub open spec fn stream_chunks(config: ClientConfig<String>) -> int {
    ceil_div(config.frame_size as int, config.chunk_size as int)
}

/// The sender sleeps until the next frame is due, or reports that it is late.
pub open spec fn stream_scheduled(m: TcpSenderModel, config: ClientConfig<String>, now: u64) -> (
    TcpSenderModel,
    TcpActionModel,
) {
    let (due, sleep_ns) = next_due(m.due, (1_000_000_000int / config.fps as int) as u64, now);
    let next = TcpSenderModel { phase: TcpPhase::Frame, due, ..m };
    match sleep_ns {
        Some(ns) => (next, TcpActionModel::Sleep { ns }),
        None => (
            next.logged(
                FrameEvent::Late {
                    frame_id: m.frames_sent,
                    elapsed_ms: elapsed(m.started, now) / 1_000_000,
                },
            ),
            TcpActionModel::Late,
        ),
    }
}

/// The next frame: room is asked for all of it where it may be dropped, else for
/// each chunk; after the last frame the stream ends.
pub open spec fn stream_frame(m: TcpSenderModel, config: ClientConfig<String>, now: u64, unix_us: u64) -> (
    TcpSenderModel,
    TcpActionModel,
) {
    if m.frames_sent < saturating_product(config.duration_sec as int, config.fps as int) {
        let opened = TcpSenderModel { frame_started: now, next_chunk: 0, ..m };
        if config.drop_when_window_full {
            (
                TcpSenderModel { phase: TcpPhase::Reserving, ..opened },
                TcpActionModel::ReserveFrame { bytes: config.frame_size as u64 },
            )
        } else {
            stream_begun(opened, config, now, unix_us)
        }
    } else {
        (TcpSenderModel { phase: TcpPhase::Ended, ..m }, TcpActionModel::Bye)
    }
}

/// The frame is reported, and its first chunk follows.
pub open spec fn stream_begun(m: TcpSenderModel, config: ClientConfig<String>, now: u64, unix_us: u64) -> (
    TcpSenderModel,
    TcpActionModel,
) {
    stream_next(
        m.logged(
            FrameEvent::Start {
                frame_id: m.frames_sent,
                chunk_count: stream_chunks(config) as u32,
                frame_size: config.frame_size,
            },
        ),
        config,
        now,
        unix_us,
    )
}

/// The frame is skipped: it is reported and counted.
pub open spec fn stream_skipped(m: TcpSenderModel, config: ClientConfig<String>) -> (
    TcpSenderModel,
    TcpActionModel,
) {
    let reported = m.logged(
        FrameEvent::Skipped {
            frame_id: m.frames_sent,
            frame_size: config.frame_size,
            window_bytes: config.window_bytes,
            window_wait_ms: config.window_wait_ms,
        },
    );
    (
        TcpSenderModel {
            frames_skipped: saturating_sum(m.frames_skipped as int, 1),
            frames_sent: (m.frames_sent + 1) as u64,
            phase: TcpPhase::Skipped,
            ..reported
        },
        TcpActionModel::Skip,
    )
}

/// The next chunk of the frame: it is written at once where room was granted to
/// the whole frame, else room is asked for it first; at its end the frame is
/// closed.
pub open spec fn stream_next(m: TcpSenderModel, config: ClientConfig<String>, now: u64, unix_us: u64) -> (
    TcpSenderModel,
    TcpActionModel,
) {
    if m.next_chunk >= stream_chunks(config) || config.drop_when_window_full {
        stream_written(m, config, now, unix_us)
    } else {
        (
            TcpSenderModel { phase: TcpPhase::Reserved { unix_us }, ..m },
            TcpActionModel::ReserveChunk {
                bytes: outgoing_chunk(config, m.frames_sent, m.next_chunk, unix_us).payload_len as u64,
            },
        )
    }
}

/// The next chunk of the frame is written, with the time at which it was made;
/// at its end the frame is closed.
pub open spec fn stream_written(m: TcpSenderModel, config: ClientConfig<String>, now: u64, unix_us: u64) -> (
    TcpSenderModel,
    TcpActionModel,
) {
    if m.next_chunk < stream_chunks(config) {
        let chunk = outgoing_chunk(config, m.frames_sent, m.next_chunk, unix_us);
        (
            TcpSenderModel {
                phase: TcpPhase::Sent { index: m.next_chunk, payload_len: chunk.payload_len },
                next_chunk: (m.next_chunk + 1) as u32,
                ..m
            },
            TcpActionModel::Write {
                chunk,
                payload: payload_bytes(m.frames_sent, m.next_chunk, chunk.payload_len as nat),
            },
        )
    } else {
        stream_closed(m, config, now)
    }
}

/// The chunk that was written is counted and reported; a pause follows where
/// pacing asks for one, and then the next chunk.
pub open spec fn stream_counted(
    m: TcpSenderModel,
    config: ClientConfig<String>,
    index: u32,
    payload_len: u32,
    now: u64,
    unix_us: u64,
) -> (TcpSenderModel, TcpActionModel) {
    let chunk_count = stream_chunks(config) as u32;
    let counted = TcpSenderModel {
        chunks_sent: (m.chunks_sent + 1) as u64,
        bytes_sent: (m.bytes_sent + payload_len) as u64,
        ..m
    };
    let reported = if config.verbose_chunks {
        counted.logged(
            FrameEvent::ChunkSent { frame_id: m.frames_sent, chunk_index: index, chunk_count, payload_len },
        )
    } else {
        counted
    };
    if config.mode != SendMode::Burst && pause_due(
        config.pace_every,
        config.pace_us,
        m.next_chunk,
        chunk_count,
    ) {
        (
            TcpSenderModel { phase: TcpPhase::Next, ..reported },
            TcpActionModel::Pause { us: config.pace_us },
        )
    } else {
        stream_next(reported, config, now, unix_us)
    }
}

/// The frame is reported and counted, and the next one is waited for.
pub open spec fn stream_closed(m: TcpSenderModel, config: ClientConfig<String>, now: u64) -> (
    TcpSenderModel,
    TcpActionModel,
) {
    let reported = m.logged(
        FrameEvent::Sent {
            frame_id: m.frames_sent,
            chunks_sent: stream_chunks(config) as u32,
            bytes_sent: config.frame_size,
            elapsed_us: elapsed(m.frame_started, now) / 1_000,
        },
    );
    stream_scheduled(
        TcpSenderModel { frames_sent: (m.frames_sent + 1) as u64, ..reported },
        config,
        now,
    )
}

/// What a sender does next, after what it asked for has ended, at a time of the
/// monotonic clock and a time of day, and the sender after it.
pub open spec fn stream_step(
    m: TcpSenderModel,
    config: ClientConfig<String>,
    event: TcpEvent,
    now: u64,
    unix_us: u64,
) -> (TcpSenderModel, TcpActionModel) {
    match m.phase {
        TcpPhase::Start => (
            TcpSenderModel { phase: TcpPhase::Opened, ..m },
            TcpActionModel::Hello(greeting(config)),
        ),
        TcpPhase::Opened => stream_frame(
            TcpSenderModel { started: now, due: now, ..m },
            config,
            now,
            unix_us,
        ),
        TcpPhase::Frame => stream_frame(m, config, now, unix_us),
        TcpPhase::Reserving => if event is Dropped {
            stream_skipped(m, config)
        } else {
            stream_begun(m, config, now, unix_us)
        },
        TcpPhase::Skipped => stream_scheduled(m, config, now),
        TcpPhase::Next => stream_next(m, config, now, unix_us),
        TcpPhase::Reserved { unix_us } => stream_written(m, config, now, unix_us),
        TcpPhase::Sent { index, payload_len } => stream_counted(
            m,
            config,
            index,
            payload_len,
            now,
            unix_us,
        ),
        TcpPhase::Ended => (m, TcpActionModel::Done),
    }
}

impl TcpSender {
    /// While a frame is being sent it is not the last one that can be counted.
    pub open spec fn wf(&self) -> bool {
        self@.wf()
    }

    pub fn new() -> (sender: TcpSender)
        ensures
            sender.wf(),
            sender@ == fresh_stream(),
    {
        let sender = TcpSender {
            frames_sent: 0,
            frames_skipped: 0,
            chunks_sent: 0,
            bytes_sent: 0,
            phase: TcpPhase::Start,
            next_chunk: 0,
            started: 0,
            frame_started: 0,
            schedule: FrameSchedule { next: 0 },
            log: Vec::new(),
        };
        assert(sender.log@ =~= seq![]);
        sender
    }

    /// Whether another frame is to be sent.
    fn wants_frame(&self, config: &ClientConfig<String>) -> (more: bool)
        ensures
            more == (self@.frames_sent < saturating_product(
                config.duration_sec as int,
                config.fps as int,
            )),
            more ==> self@.frames_sent < u64::MAX,
    {
        self.frames_sent < frame_count_target(config.duration_sec, config.fps)
    }

    /// Whether the chunk that was written can be counted.
    pub fn has_room(&self) -> (room: bool)
        ensures
            room == self@.has_room(),
    {
        match self.phase {
            TcpPhase::Sent { payload_len, .. } => {
                self.chunks_sent < u64::MAX && self.bytes_sent <= u64::MAX - payload_len as u64
            },
            _ => true,
        }
    }

    /// The chunk `index` of the current frame.
    pub fn chunk(&self, config: &ClientConfig<String>, index: u32, unix_us: u64) -> (out: OutgoingChunk)
        requires
            client_fault(*config) is None,
            index < ceil_div(config.frame_size as int, config.chunk_size as int),
        ensures
            out.chunk == outgoing_chunk(*config, self@.frames_sent, index, unix_us),
            out.payload@ == payload_bytes(self@.frames_sent, index, out.chunk.payload_len as nat),
    {
        let payload_len: u32 = chunk_payload_len(config.frame_size, config.chunk_size, index);
        let mut payload: Vec<u8> = vec![0u8; payload_len as usize];
        fill_payload(payload.as_mut_slice(), self.frames_sent, index);
        let chunk = ChunkMsg {
            frame_id: self.frames_sent,
            chunk_index: index,
            chunk_count: div_ceil_u32(config.frame_size, config.chunk_size),
            frame_size: config.frame_size,
            sent_unix_us: unix_us,
            payload_len,
        };
        OutgoingChunk { chunk, payload }
    }

    /// What the sender does next, after what it asked for has ended, at a time of
    /// the monotonic clock and a time of day. What it reports is to be written
    /// before the action is carried out.
    pub fn step(&mut self, config: &ClientConfig<String>, event: TcpEvent, now: u64, unix_us: u64) -> (action:
        TcpAction)
        requires
            old(self).wf(),
            old(self)@.has_room(),
            client_fault(*config) is None,
        ensures
            final(self).wf(),
            (final(self)@, action@) == stream_step(old(self)@, *config, event, now, unix_us),
    {
        match self.phase {
            TcpPhase::Start => {
                self.phase = TcpPhase::Opened;
                TcpAction::Hello(hello_message(config))
            },
            TcpPhase::Opened => {
                self.started = now;
                self.schedule = FrameSchedule { next: now };
                self.open_frame(config, now, unix_us)
            },
            TcpPhase::Frame => self.open_frame(config, now, unix_us),
            TcpPhase::Reserving => if event == TcpEvent::Dropped {
                self.skip_frame(config)
            } else {
                self.begin_frame(config, now, unix_us)
            },
            TcpPhase::Skipped => self.wait_for_frame(config, now),
            TcpPhase::Next => self.next_chunk(config, now, unix_us),
            TcpPhase::Reserved { unix_us } => self.write_chunk(config, now, unix_us),
            TcpPhase::Sent { index, payload_len } => self.count_chunk(config, index, payload_len, now, unix_us),
            TcpPhase::Ended => TcpAction::Done,
        }
    }

    fn open_frame(&mut self, config: &ClientConfig<String>, now: u64, unix_us: u64) -> (action: TcpAction)
        requires
            client_fault(*config) is None,
        ensures
            final(self).wf(),
            (final(self)@, action@) == stream_frame(old(self)@, *config, now, unix_us),
    {
        if !self.wants_frame(config) {
            self.phase = TcpPhase::Ended;
            return TcpAction::Bye;
        }
        self.frame_started = now;
        self.next_chunk = 0;
        if config.drop_when_window_full {
            self.phase = TcpPhase::Reserving;
            TcpAction::ReserveFrame { bytes: config.frame_size as u64 }
        } else {
            self.begin_frame(config, now, unix_us)
        }
    }

    fn begin_frame(&mut self, config: &ClientConfig<String>, now: u64, unix_us: u64) -> (action: TcpAction)
        requires
            client_fault(*config) is None,
            old(self)@.frames_sent < u64::MAX,
        ensures
            final(self).wf(),
            (final(self)@, action@) == stream_begun(old(self)@, *config, now, unix_us),
    {
        self.log.push(
            FrameEvent::Start {
                frame_id: self.frames_sent,
                chunk_count: div_ceil_u32(config.frame_size, config.chunk_size),
                frame_size: config.frame_size,
            },
        );
        self.next_chunk(config, now, unix_us)
    }

    fn skip_frame(&mut self, config: &ClientConfig<String>) -> (action: TcpAction)
        requires
            old(self)@.frames_sent < u64::MAX,
        ensures
            final(self).wf(),
            (final(self)@, action@) == stream_skipped(old(self)@, *config),
    {
        self.log.push(
            FrameEvent::Skipped {
                frame_id: self.frames_sent,
                frame_size: config.frame_size,
                window_bytes: config.window_bytes,
                window_wait_ms: config.window_wait_ms,
            },
        );
        self.frames_skipped = self.frames_skipped.saturating_add(1);
        self.frames_sent = self.frames_sent + 1;
        self.phase = TcpPhase::Skipped;
        TcpAction::Skip
    }

    fn next_chunk(&mut self, config: &ClientConfig<String>, now: u64, unix_us: u64) -> (action: TcpAction)
        requires
            client_fault(*config) is None,
            old(self)@.frames_sent < u64::MAX,
        ensures
            final(self).wf(),
            (final(self)@, action@) == stream_next(old(self)@, *config, now, unix_us),
    {
        let chunk_count: u32 = div_ceil_u32(config.frame_size, config.chunk_size);
        if self.next_chunk >= chunk_count || config.drop_when_window_full {
            return self.write_chunk(config, now, unix_us);
        }
        self.phase = TcpPhase::Reserved { unix_us };
        TcpAction::ReserveChunk {
            bytes: chunk_payload_len(config.frame_size, config.chunk_size, self.next_chunk) as u64,
        }
    }

    fn write_chunk(&mut self, config: &ClientConfig<String>, now: u64, unix_us: u64) -> (action: TcpAction)
        requires
            client_fault(*config) is None,
            old(self)@.frames_sent < u64::MAX,
        ensures
            final(self).wf(),
            (final(self)@, action@) == stream_written(old(self)@, *config, now, unix_us),
    {
        let chunk_count: u32 = div_ceil_u32(config.frame_size, config.chunk_size);
        if self.next_chunk >= chunk_count {
            return self.close_frame(config, now);
        }
        let index: u32 = self.next_chunk;
        let out = self.chunk(config, index, unix_us);
        self.phase = TcpPhase::Sent { index, payload_len: out.chunk.payload_len };
        self.next_chunk = index + 1;
        TcpAction::Write(out)
    }

    fn count_chunk(
        &mut self,
        config: &ClientConfig<String>,
        index: u32,
        payload_len: u32,
        now: u64,
        unix_us: u64,
    ) -> (action: TcpAction)
        requires
            client_fault(*config) is None,
            old(self)@.frames_sent < u64::MAX,
            old(self)@.chunks_sent < u64::MAX,
            old(self)@.bytes_sent + payload_len <= u64::MAX,
        ensures
            final(self).wf(),
            (final(self)@, action@) == stream_counted(
                old(self)@,
                *config,
                index,
                payload_len,
                now,
                unix_us,
            ),
    {
        let chunk_count: u32 = div_ceil_u32(config.frame_size, config.chunk_size);
        self.chunks_sent = self.chunks_sent + 1;
        self.bytes_sent = self.bytes_sent + payload_len as u64;
        if config.verbose_chunks {
            let frame_id: u64 = self.frames_sent;
            self.log.push(FrameEvent::ChunkSent { frame_id, chunk_index: index, chunk_count, payload_len });
        }
        match maybe_pace(config, self.next_chunk, chunk_count) {
            Some(us) => {
                self.phase = TcpPhase::Next;
                TcpAction::Pause { us }
            },
            None => self.next_chunk(config, now, unix_us),
        }
    }

    fn close_frame(&mut self, config: &ClientConfig<String>, now: u64) -> (action: TcpAction)
        requires
            client_fault(*config) is None,
            old(self)@.frames_sent < u64::MAX,
        ensures
            final(self).wf(),
            (final(self)@, action@) == stream_closed(old(self)@, *config, now),
    {
        self.log.push(
            FrameEvent::Sent {
                frame_id: self.frames_sent,
                chunks_sent: div_ceil_u32(config.frame_size, config.chunk_size),
                bytes_sent: config.frame_size,
                elapsed_us: elapsed_us(self.frame_started, now),
            },
        );
        self.frames_sent = self.frames_sent + 1;
        self.wait_for_frame(config, now)
    }

    fn wait_for_frame(&mut self, config: &ClientConfig<String>, now: u64) -> (action: TcpAction)
        requires
            client_fault(*config) is None,
        ensures
            final(self).wf(),
            (final(self)@, action@) == stream_scheduled(old(self)@, *config, now),
    {
        self.phase = TcpPhase::Frame;
        match self.schedule.advance(frame_period_ns(config.fps), now) {
            Some(ns) => TcpAction::Sleep { ns },
            None => {
                self.log.push(
                    FrameEvent::Late {
                        frame_id: self.frames_sent,
                        elapsed_ms: elapsed_ns(self.started, now) / 1_000_000,
                    },
                );
                TcpAction::Late
            },
        }
    }

    /// Hands out what has been reported since the last call.
    pub fn take_log(&mut self) -> (log: Vec<FrameEvent>)
        ensures
            log@ == old(self)@.log,
            final(self)@ == (TcpSenderModel { log: seq![], ..old(self)@ }),
    {
        let mut log: Vec<FrameEvent> = Vec::new();
        log.append(&mut self.log);
        assert(log@ =~= old(self)@.log);
        assert(self.log@ =~= seq![]);
        log
    }
}

} // verus!
