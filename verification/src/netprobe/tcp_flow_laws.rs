//! What a message does to the TCP receiver, and what an acknowledgement does to
//! the sender's window.
use vstd::prelude::*;

use crate::netprobe::config::{ClientConfig, SendMode, ServerConfig};
use crate::netprobe::frames::{
    law_accept_chunk, lemma_count_bounds, lemma_sorted_lists, sorted, FrameModel,
};
use crate::netprobe::tcp_client::{
    capped32, greeting, next_due, pause_due, reservation, stream_chunks, stream_step, FlowModel,
    FrameEvent, Reservation, TcpActionModel, TcpEvent, TcpPhase, TcpSenderModel,
};
use crate::netprobe::tcp_server::{
    is_next_pause, is_next_pause_by, message_handled, open_frame_event, pause_time, read_ended, ReadEnd,
    ServerEvent, TcpModel,
};
use crate::netprobe::wire::{
    chunk_len, law_chunks_cover_frame, lemma_ceil_div_bounds, payload_bytes, ChunkMsg, FrameAckMsg,
    WireMessage,
};

verus! {

// ---------------------------------------------------------------------------
// The receiver
// ---------------------------------------------------------------------------

/// A chunk of an open frame in the frame's shape is marked, counted and, if it is
/// the first of its kind, adds its bytes. The last one missing closes the frame
/// and is acknowledged as complete. Before that every `ack_every`th chunk seen is
/// acknowledged: `groups` full groups and `rest` more chunks have been seen.
#[verifier::rlimit(60)]
pub proof fn law_stream_chunk_is_marked(
    m: TcpModel,
    config: ServerConfig<String>,
    chunk: ChunkMsg,
    now: u64,
    unix_us: u64,
    groups: int,
    rest: int,
)
    requires
        m.wf(),
        m.has_room(WireMessage::Chunk(chunk)),
        m.frames.contains_key(chunk.frame_id),
        m.frames[chunk.frame_id].chunk_count == chunk.chunk_count,
        m.frames[chunk.frame_id].frame_size == chunk.frame_size,
        chunk.chunk_index < chunk.chunk_count,
        m.frames[chunk.frame_id].bytes_seen + chunk.payload_len <= u32::MAX,
        config.ack_every_chunks > 0 ==> 0 <= rest < config.ack_every_chunks && groups
            * config.ack_every_chunks + rest == m.frames[chunk.frame_id].chunks_seen()
            + if m.frames[chunk.frame_id].seen[chunk.chunk_index as int] {
            0int
        } else {
            1int
        },
    ensures
        ({
            let (next, ack, done) = message_handled(
                m,
                config,
                WireMessage::Chunk(chunk),
                now,
                unix_us,
            );
            let before = m.frames[chunk.frame_id];
            let after = next.frames[chunk.frame_id];
            let index = chunk.chunk_index as int;
            let added = if before.seen[index] { 0int } else { chunk.payload_len as int };
            let last_one = forall|i: int| 0 <= i < before.chunk_count && i != index ==> before.seen[i];
            &&& !done
            &&& next.chunks_total == m.chunks_total + 1
            &&& next.bytes_total == m.bytes_total + chunk.payload_len
            &&& next.frames.contains_key(chunk.frame_id) <==> !last_one
            &&& !last_one ==> {
                &&& after.seen.len() == before.seen.len()
                &&& forall|i: int|
                    0 <= i < before.chunk_count ==> (#[trigger] after.seen[i] <==> before.seen[i] || i == index)
                &&& after.bytes_seen == before.bytes_seen + added
                &&& after.started == before.started
                &&& after.first_unix_us == before.first_unix_us
                &&& after.chunk_count == before.chunk_count
                &&& after.frame_size == before.frame_size
            }
            &&& ack is Some <==> last_one || (config.ack_every_chunks > 0 && rest == 0)
            &&& ack matches Some(ack) ==> {
                &&& ack.complete == last_one
                &&& ack.frame_id == chunk.frame_id
                &&& ack.chunks_seen == before.chunks_seen() + if before.seen[index] { 0int } else { 1int }
                &&& ack.chunk_count == before.chunk_count
                &&& ack.frame_size == before.frame_size
                &&& ack.bytes_seen == before.bytes_seen + added
                &&& ack.complete_unix_us == unix_us
                &&& now >= before.started ==> 1_000 * ack.receive_elapsed_us <= now - before.started < 1_000
                    * ack.receive_elapsed_us + 1_000
                &&& now < before.started ==> ack.receive_elapsed_us == 0
            }
        }),
{
    let frame = m.frames[chunk.frame_id];
    let index = chunk.chunk_index as int;
    assert(frame.pending());
    law_accept_chunk(frame, index, chunk.payload_len);
    let taken = frame.accepted(index, chunk.payload_len);
    lemma_count_bounds(taken.seen);
    lemma_count_bounds(frame.seen);
    let last_one = forall|i: int| 0 <= i < frame.chunk_count && i != index ==> frame.seen[i];
    if last_one {
        assert forall|i: int| 0 <= i < taken.seen.len() implies taken.seen[i] by {
            if i != index {
                assert(frame.seen[i]);
            }
        }
        assert(taken.complete());
    } else {
        let gap = choose|i: int| 0 <= i < frame.chunk_count && i != index && !frame.seen[i];
        assert(!taken.seen[gap]);
        assert(!taken.complete());
    }
    if config.ack_every_chunks > 0 {
        vstd::arithmetic::div_mod::lemma_fundamental_div_mod_converse(
            taken.chunks_seen() as int,
            config.ack_every_chunks as int,
            groups,
            rest,
        );
    }
}

/// The first chunk of a frame opens it in the chunk's shape, with the arrival as
/// its start, and is marked in it.
#[verifier::rlimit(60)]
pub proof fn law_stream_chunk_opens_its_frame(
    m: TcpModel,
    config: ServerConfig<String>,
    chunk: ChunkMsg,
    now: u64,
    unix_us: u64,
)
    requires
        m.wf(),
        m.has_room(WireMessage::Chunk(chunk)),
        !m.frames.contains_key(chunk.frame_id),
        chunk.chunk_index < chunk.chunk_count,
    ensures
        ({
            let (next, ack, done) = message_handled(
                m,
                config,
                WireMessage::Chunk(chunk),
                now,
                unix_us,
            );
            let frame = next.frames[chunk.frame_id];
            &&& !done
            &&& next.chunks_total == m.chunks_total + 1
            &&& next.bytes_total == m.bytes_total + chunk.payload_len
            &&& next.frames.contains_key(chunk.frame_id) <==> chunk.chunk_count > 1
            &&& chunk.chunk_count == 1 ==> (ack matches Some(ack) && ack.complete && ack.frame_id
                == chunk.frame_id && ack.chunks_seen == 1 && ack.bytes_seen == chunk.payload_len
                && ack.receive_elapsed_us == 0)
            &&& chunk.chunk_count > 1 ==> {
                &&& frame.chunk_count == chunk.chunk_count
                &&& frame.frame_size == chunk.frame_size
                &&& frame.started == now
                &&& frame.first_unix_us == chunk.sent_unix_us
                &&& frame.bytes_seen == chunk.payload_len
                &&& frame.seen.len() == chunk.chunk_count
                &&& forall|i: int|
                    0 <= i < chunk.chunk_count ==> (#[trigger] frame.seen[i] <==> i == chunk.chunk_index)
            }
        }),
{
    let fresh = FrameModel::opened(0, chunk.frame_size, chunk.chunk_count, chunk.sent_unix_us, now);
    law_accept_chunk(fresh, chunk.chunk_index as int, chunk.payload_len);
    let taken = fresh.accepted(chunk.chunk_index as int, chunk.payload_len);
    lemma_count_bounds(taken.seen);
    lemma_count_bounds(fresh.seen);
    if chunk.chunk_count > 1 {
        let gap = if chunk.chunk_index == 0 { 1int } else { 0int };
        assert(!fresh.seen[gap] && !taken.seen[gap]);
        assert(!taken.complete());
    } else {
        assert(taken.complete());
    }
}

/// A chunk that its frame does not have is not counted; one whose frame is open
/// in another shape is counted and changes no frame. Neither is acknowledged.
pub proof fn law_stream_chunk_is_refused(
    m: TcpModel,
    config: ServerConfig<String>,
    chunk: ChunkMsg,
    now: u64,
    unix_us: u64,
)
    requires
        m.has_room(WireMessage::Chunk(chunk)),
    ensures
        ({
            let (next, ack, done) = message_handled(
                m,
                config,
                WireMessage::Chunk(chunk),
                now,
                unix_us,
            );
            let placed = chunk.chunk_index < chunk.chunk_count;
            let frame = m.frames[chunk.frame_id];
            let other_shape = m.frames.contains_key(chunk.frame_id) && (frame.chunk_count
                != chunk.chunk_count || frame.frame_size != chunk.frame_size);
            &&& !placed ==> next.frames == m.frames && next.chunks_total == m.chunks_total
                && next.bytes_total == m.bytes_total && ack is None && !done
            &&& placed && other_shape ==> next.frames == m.frames && next.chunks_total == m.chunks_total + 1
                && next.bytes_total == m.bytes_total + chunk.payload_len && ack is None && !done
        }),
{
}

/// A chunk touches only its own frame.
pub proof fn law_stream_chunk_leaves_other_frames(
    m: TcpModel,
    config: ServerConfig<String>,
    message: WireMessage,
    now: u64,
    unix_us: u64,
    other: u64,
)
    requires
        message matches WireMessage::Chunk(chunk) ==> chunk.frame_id != other,
    ensures
        ({
            let next = message_handled(m, config, message, now, unix_us).0;
            &&& next.frames.contains_key(other) <==> m.frames.contains_key(other)
            &&& m.frames.contains_key(other) ==> next.frames[other] == m.frames[other]
        }),
{
}

/// A greeting, an acknowledgement and a goodbye are reported and change nothing
/// else; only the goodbye ends the connection, and it is reported with the
/// totals.
pub proof fn law_other_messages_are_reported(
    m: TcpModel,
    config: ServerConfig<String>,
    message: WireMessage,
    now: u64,
    unix_us: u64,
)
    requires
        !(message is Chunk),
    ensures
        ({
            let (next, ack, done) = message_handled(m, config, message, now, unix_us);
            &&& ack is None
            &&& done <==> message is Bye
            &&& next.frames == m.frames
            &&& next.chunks_total == m.chunks_total
            &&& next.bytes_total == m.bytes_total
            &&& next.log.len() == m.log.len() + 1
            &&& next.log.drop_last() == m.log
            &&& message matches WireMessage::Hello(hello) ==> next.log.last() == ServerEvent::Hello(hello)
            &&& message is FrameAck ==> next.log.last() is UnexpectedAck
            &&& message is Bye ==> (next.log.last() matches ServerEvent::Bye {
                chunks_total,
                bytes_total,
                open_frames,
            } && chunks_total == m.chunks_total && bytes_total == m.bytes_total && open_frames
                == m.frames.dom().len() as usize)
        }),
{
    let next = message_handled(m, config, message, now, unix_us).0;
    assert(next.log.drop_last() =~= m.log);
}

/// At the end of the stream the totals are reported and then each open frame, in
/// ascending order, with what has arrived of it.
#[verifier::rlimit(60)]
pub proof fn law_open_frames_are_reported_at_the_end(m: TcpModel, end: ReadEnd, now: u64, frame_id: u64)
    requires
        m.wf(),
        m.frames.dom().finite(),
        m.frames.contains_key(frame_id),
    ensures
        ({
            let next = read_ended(m, end, now);
            let frame = m.frames[frame_id];
            &&& next.frames == m.frames
            &&& next.log[m.log.len() as int] matches ServerEvent::ReadEnded {
                end: given,
                chunks_total,
                bytes_total,
                open_frames,
            } && given == end && chunks_total == m.chunks_total && bytes_total == m.bytes_total
            &&& exists|k: int|
                m.log.len() < k < next.log.len() && (#[trigger] next.log[k] matches ServerEvent::OpenFrame {
                    reason,
                    frame_id: id,
                    chunks_seen,
                    chunk_count,
                    bytes_seen,
                    frame_size,
                    elapsed_us,
                } && reason == end && id == frame_id && chunks_seen == frame.chunks_seen() && chunk_count
                    == frame.chunk_count && bytes_seen == frame.bytes_seen && frame_size == frame.frame_size
                    && (now >= frame.started ==> 1_000 * elapsed_us <= now - frame.started < 1_000
                    * elapsed_us + 1_000))
        }),
{
    lemma_sorted_lists(m.frames.dom());
    let ids = sorted(m.frames.dom());
    let next = read_ended(m, end, now);
    let frame = m.frames[frame_id];
    assert(frame.pending());
    assert(ids.to_set().contains(frame_id));
    let i = choose|i: int| 0 <= i < ids.len() && ids[i] == frame_id;
    let k = m.log.len() + 1 + i;
    assert(next.log[k] == open_frame_event(end, frame_id, frame, now));
}

/// The next pause is a whole number of intervals behind the one before, and the
/// first such that lies ahead.
pub proof fn law_next_pause_is_the_first_ahead(after_ms: u64, repeat_ms: u64, elapsed_ms: u64, next: u64)
    requires
        is_next_pause(after_ms, repeat_ms, elapsed_ms, next),
        after_ms <= elapsed_ms,
        repeat_ms > 0,
        next < u64::MAX,
    ensures
        next - repeat_ms <= elapsed_ms < next,
        (next - after_ms) % (repeat_ms as int) == 0,
{
    let repeats = choose|repeats: nat| #[trigger]
        is_next_pause_by(after_ms, repeat_ms, elapsed_ms, next, repeats);
    let step = repeat_ms as int;
    let total = repeats * repeat_ms;
    assert(next == after_ms + total);
    vstd::arithmetic::div_mod::lemma_mod_multiples_basic(repeats as int, step);
    assert((repeats - 1) * step == total - step) by (nonlinear_arith)
        requires
            total == repeats * step,
    ;
    if repeats > 1 {
        let fewer = (repeats - 1) as nat;
        assert(pause_time(after_ms, repeat_ms, fewer) <= elapsed_ms);
        assert(0 <= (repeats - 1) * step) by (nonlinear_arith)
            requires
                repeats > 1,
                step > 0,
        ;
    } else {
        assert(total == step) by (nonlinear_arith)
            requires
                total == repeats * step,
                repeats == 1,
        ;
    }
}

// ---------------------------------------------------------------------------
// The window
// ---------------------------------------------------------------------------

/// Outside window mode every request for room is granted and nothing is counted.
/// In window mode one is granted, and counted, exactly if what is on its way
/// leaves room for it, unless a wait has just run past the limit.
pub proof fn law_room_is_granted(
    flow: FlowModel,
    config: ClientConfig<String>,
    bytes: u64,
    allow_drop: bool,
    waited_ns: u64,
    wait_timed_out: bool,
)
    requires
        config.window_bytes < u64::MAX,
    ensures
        ({
            let (next, answer) = reservation(flow, config, bytes, allow_drop, waited_ns, wait_timed_out);
            let gave_up = config.window_wait_ms > 0 && wait_timed_out && waited_ns >= config.window_wait_ms
                * 1_000_000;
            &&& config.mode != SendMode::Window ==> answer is Granted && next == flow
            &&& config.mode == SendMode::Window ==> {
                &&& answer is Granted <==> !gave_up && flow.inflight_bytes + bytes <= config.window_bytes
                &&& next.inflight_bytes == flow.inflight_bytes + if answer is Granted {
                    bytes as int
                } else {
                    0
                }
                &&& next.acked_bytes == flow.acked_bytes
                &&& next.acked_frames == flow.acked_frames
                &&& next.acked_frame_bytes == flow.acked_frame_bytes
            }
        }),
{
}

/// Where there is no room, the sender waits in steps of at most 200 milliseconds
/// and never past the limit; at the limit a request that may be dropped is
/// dropped and another one fails. Without a limit the first is dropped at once
/// and the other waits as long as it takes.
pub proof fn law_full_window_is_waited_for(
    flow: FlowModel,
    config: ClientConfig<String>,
    bytes: u64,
    allow_drop: bool,
    waited_ns: u64,
    wait_timed_out: bool,
)
    requires
        config.mode == SendMode::Window,
        config.window_bytes < u64::MAX,
        flow.inflight_bytes + bytes > config.window_bytes,
    ensures
        ({
            let answer = reservation(flow, config, bytes, allow_drop, waited_ns, wait_timed_out).1;
            let limit = config.window_wait_ms * 1_000_000;
            &&& config.window_wait_ms == 0 && allow_drop ==> answer == Reservation::Dropped
            &&& config.window_wait_ms == 0 && !allow_drop ==> answer == (Reservation::Wait {
                nanos: 200_000_000,
            })
            &&& config.window_wait_ms > 0 && waited_ns >= limit && allow_drop ==> answer
                == Reservation::Dropped
            &&& config.window_wait_ms > 0 && waited_ns >= limit && !allow_drop ==> answer
                == Reservation::TimedOut
            &&& config.window_wait_ms > 0 && waited_ns < limit ==> (answer matches Reservation::Wait { nanos }
                && 0 < nanos <= 200_000_000 && waited_ns + nanos <= limit && (nanos == 200_000_000
                || waited_ns + nanos == limit))
        }),
{
}

/// An acknowledgement moves the bytes that it covers for the first time from what
/// is on its way to what has arrived. A complete frame is counted and forgotten;
/// of another one the most that was covered is remembered. Other frames stay.
pub proof fn law_acknowledged_bytes_move(flow: FlowModel, ack: FrameAckMsg, covered: int, other: u64)
    requires
        flow.acked_frames < u64::MAX,
        covered == if flow.acked_frame_bytes.contains_key(ack.frame_id) {
            flow.acked_frame_bytes[ack.frame_id] as int
        } else {
            0
        },
        ack.bytes_seen - covered <= flow.inflight_bytes,
        flow.acked_bytes + ack.bytes_seen <= u64::MAX,
        other != ack.frame_id,
    ensures
        ({
            let next = flow.acknowledged(ack);
            let newly = if ack.bytes_seen > covered { ack.bytes_seen - covered } else { 0 };
            &&& flow.newly_acked(ack) == newly
            &&& next.inflight_bytes == flow.inflight_bytes - newly
            &&& next.acked_bytes == flow.acked_bytes + newly
            &&& next.acked_frames == flow.acked_frames + if ack.complete { 1int } else { 0int }
            &&& ack.complete ==> !next.acked_frame_bytes.contains_key(ack.frame_id)
            &&& !ack.complete && ack.bytes_seen > covered
                ==> next.acked_frame_bytes.contains_key(ack.frame_id)
                && next.acked_frame_bytes[ack.frame_id] == ack.bytes_seen
            &&& !ack.complete && ack.bytes_seen <= covered ==> next.acked_frame_bytes
                == flow.acked_frame_bytes
            &&& next.acked_frame_bytes.contains_key(other) <==> flow.acked_frame_bytes.contains_key(other)
            &&& flow.acked_frame_bytes.contains_key(other) ==> next.acked_frame_bytes[other]
                == flow.acked_frame_bytes[other]
        }),
{
}

// ---------------------------------------------------------------------------
// The sender
// ---------------------------------------------------------------------------

/// A client names the sizes and rates that it was given, those that do not fit
/// into 32 bits by the largest number that does, and its mode by its number.
pub proof fn law_greeting_names_the_run(config: ClientConfig<String>)
    ensures
        ({
            let hello = greeting(config);
            &&& hello.chunk_size == config.chunk_size
            &&& hello.frame_size == config.frame_size
            &&& hello.fps == config.fps
            &&& config.duration_sec <= 0xffff_ffff ==> hello.duration_sec == config.duration_sec
            &&& config.duration_sec > 0xffff_ffff ==> hello.duration_sec == 0xffff_ffff
            &&& config.window_bytes <= 0xffff_ffff ==> hello.window_bytes == config.window_bytes
            &&& config.window_bytes > 0xffff_ffff ==> hello.window_bytes == 0xffff_ffff
            &&& hello.mode == match config.mode {
                SendMode::Burst => 0u8,
                SendMode::Paced => 1u8,
                SendMode::Window => 2u8,
            }
        }),
{
    assert(capped32(config.duration_sec) <= 0xffff_ffff);
}

/// Frames keep their rhythm: the next one is due a period after the last was due,
/// and the sender sleeps exactly until then. Once that time is over the rhythm
/// starts anew.
pub proof fn law_frames_keep_their_rhythm(due: u64, period_ns: u64, now: u64)
    requires
        due + period_ns <= u64::MAX,
    ensures
        ({
            let (next, sleep) = next_due(due, period_ns, now);
            &&& now <= due + period_ns ==> next == due + period_ns && (sleep matches Some(ns) && now + ns
                == due + period_ns)
            &&& now > due + period_ns ==> next == now && sleep is None
        }),
{
}

/// A paced sender pauses after every `pace_every` chunks of a frame, but not
/// after the last one; `groups` full groups and `rest` chunks have been sent.
pub proof fn law_pauses_come_after_groups(
    pace_every: u32,
    pace_us: u64,
    chunks_sent: u32,
    chunk_count: u32,
    groups: int,
    rest: int,
)
    requires
        pace_every > 0,
        0 <= rest < pace_every,
        chunks_sent == groups * pace_every + rest,
    ensures
        pause_due(pace_every, pace_us, chunks_sent, chunk_count) <==> pace_us > 0 && rest == 0 && chunks_sent
            < chunk_count,
        !pause_due(0, pace_us, chunks_sent, chunk_count),
{
    vstd::arithmetic::div_mod::lemma_fundamental_div_mod_converse(
        chunks_sent as int,
        pace_every as int,
        groups,
        rest,
    );
}

/// A chunk that was written is counted with its bytes. A pause follows exactly if
/// pacing asks for one and the mode is not burst.
pub proof fn law_written_chunk_is_counted(
    m: TcpSenderModel,
    config: ClientConfig<String>,
    event: TcpEvent,
    now: u64,
    unix_us: u64,
    index: u32,
    payload_len: u32,
)
    requires
        m.phase == (TcpPhase::Sent { index, payload_len }),
        m.has_room(),
    ensures
        ({
            let (next, action) = stream_step(m, config, event, now, unix_us);
            let count = stream_chunks(config) as u32;
            let paced = config.mode != SendMode::Burst && pause_due(
                config.pace_every,
                config.pace_us,
                m.next_chunk,
                count,
            );
            &&& next.chunks_sent == m.chunks_sent + 1
            &&& next.bytes_sent == m.bytes_sent + payload_len
            &&& paced <==> action is Pause
            &&& action matches TcpActionModel::Pause { us } ==> us == config.pace_us
            &&& next.frames_skipped == m.frames_skipped
        }),
{
}

/// A frame that is dropped is counted both as skipped and as done with, and is
/// reported; nothing of it is written.
pub proof fn law_dropped_frame_is_counted(
    m: TcpSenderModel,
    config: ClientConfig<String>,
    now: u64,
    unix_us: u64,
)
    requires
        m.phase is Reserving,
        m.wf(),
        m.frames_skipped < u64::MAX,
    ensures
        ({
            let (next, action) = stream_step(m, config, TcpEvent::Dropped, now, unix_us);
            &&& action is Skip
            &&& next.frames_skipped == m.frames_skipped + 1
            &&& next.frames_sent == m.frames_sent + 1
            &&& next.chunks_sent == m.chunks_sent
            &&& next.bytes_sent == m.bytes_sent
            &&& next.log.last() == (FrameEvent::Skipped {
                frame_id: m.frames_sent,
                frame_size: config.frame_size,
                window_bytes: config.window_bytes,
                window_wait_ms: config.window_wait_ms,
            })
        }),
{
}

/// After a frame was skipped the sender waits for the next one as after any
/// other: it sleeps until a period after the last was due, at `period`
/// nanoseconds, or goes on at once where it is late.
pub proof fn law_skipped_frame_keeps_the_rhythm(
    m: TcpSenderModel,
    config: ClientConfig<String>,
    event: TcpEvent,
    now: u64,
    unix_us: u64,
    period: int,
)
    requires
        m.phase is Skipped,
        config.fps > 0,
        period * config.fps <= 1_000_000_000 < (period + 1) * config.fps,
        m.due + period <= u64::MAX,
    ensures
        ({
            let (next, action) = stream_step(m, config, event, now, unix_us);
            &&& next.phase is Frame
            &&& now <= m.due + period ==> next.due == m.due + period && (action matches TcpActionModel::Sleep {
                ns,
            } && now + ns == m.due + period)
            &&& now > m.due + period ==> next.due == now && action is Late && (next.log.last()
                matches FrameEvent::Late { frame_id, elapsed_ms } && frame_id == m.frames_sent && (now
                >= m.started ==> 1_000_000 * elapsed_ms <= now - m.started < 1_000_000 * elapsed_ms
                + 1_000_000))
        }),
{
    let n = config.fps as int;
    assert((period + 1) * n == period * n + n) by (nonlinear_arith);
    vstd::arithmetic::div_mod::lemma_fundamental_div_mod_converse(
        1_000_000_000,
        n,
        period,
        1_000_000_000 - period * n,
    );
    assert(0 <= period <= 1_000_000_000) by (nonlinear_arith)
        requires
            n >= 1,
            period * n <= 1_000_000_000,
            1_000_000_000 < (period + 1) * n,
    ;
}

/// A chunk is written with its frame and its number, the shape of the frame, the
/// time at which it was made and the payload of its place. `count` chunks hold
/// the frame's bytes and no fewer do; this one carries `len` of them.
pub proof fn law_chunk_is_written(
    m: TcpSenderModel,
    config: ClientConfig<String>,
    event: TcpEvent,
    now: u64,
    unix_us: u64,
    made: u64,
    count: int,
    len: int,
)
    requires
        m.phase == (TcpPhase::Reserved { unix_us: made }),
        config.frame_size > 0,
        config.chunk_size > 0,
        (count - 1) * config.chunk_size < config.frame_size <= count * config.chunk_size,
        m.next_chunk < count,
        m.next_chunk < count - 1 ==> len == config.chunk_size,
        m.next_chunk == count - 1 ==> len == config.frame_size - m.next_chunk * config.chunk_size,
    ensures
        ({
            let (next, action) = stream_step(m, config, event, now, unix_us);
            &&& next.next_chunk == m.next_chunk + 1
            &&& next.frames_sent == m.frames_sent
            &&& action matches TcpActionModel::Write { chunk, payload } && chunk.frame_id == m.frames_sent
                && chunk.chunk_index == m.next_chunk && chunk.chunk_count == count && chunk.frame_size
                == config.frame_size && chunk.sent_unix_us == made && chunk.payload_len == len && payload
                == payload_bytes(m.frames_sent, m.next_chunk, len as nat)
        }),
{
    let size = config.frame_size as int;
    let part = config.chunk_size as int;
    let index = m.next_chunk as int;
    let sum = size + part - 1;
    assert((count - 1) * part == count * part - part) by (nonlinear_arith);
    vstd::arithmetic::div_mod::lemma_fundamental_div_mod_converse(sum, part, count, sum - count * part);
    lemma_ceil_div_bounds(size, part);
    law_chunks_cover_frame(size, part);
    if index < count - 1 {
        assert(index * part <= (count - 2) * part) by (nonlinear_arith)
            requires
                index <= count - 2,
                0 < part,
        ;
        assert((count - 2) * part == count * part - part - part) by (nonlinear_arith);
    }
    assert(chunk_len(size, part, index) == len);
}

/// A frame that is written whole is counted and reported with its size and the
/// time it took, and the sender waits for the next one.
pub proof fn law_written_frame_is_counted(
    m: TcpSenderModel,
    config: ClientConfig<String>,
    event: TcpEvent,
    now: u64,
    unix_us: u64,
    period: int,
)
    requires
        m.wf(),
        m.phase is Next,
        m.next_chunk >= stream_chunks(config),
        config.fps > 0,
        period * config.fps <= 1_000_000_000 < (period + 1) * config.fps,
        m.due + period <= u64::MAX,
    ensures
        ({
            let (next, action) = stream_step(m, config, event, now, unix_us);
            &&& next.frames_sent == m.frames_sent + 1
            &&& next.frames_skipped == m.frames_skipped
            &&& next.phase is Frame
            &&& now <= m.due + period ==> next.due == m.due + period && (action matches TcpActionModel::Sleep {
                ns,
            } && now + ns == m.due + period)
            &&& now > m.due + period ==> next.due == now && action is Late
            &&& next.log.len() > m.log.len() && (next.log[m.log.len() as int] matches FrameEvent::Sent {
                frame_id,
                chunks_sent,
                bytes_sent,
                elapsed_us,
            } && frame_id == m.frames_sent && chunks_sent == stream_chunks(config) as u32 && bytes_sent
                == config.frame_size && (now >= m.frame_started ==> 1_000 * elapsed_us <= now
                - m.frame_started < 1_000 * elapsed_us + 1_000))
        }),
{
    let n = config.fps as int;
    assert((period + 1) * n == period * n + n) by (nonlinear_arith);
    vstd::arithmetic::div_mod::lemma_fundamental_div_mod_converse(
        1_000_000_000,
        n,
        period,
        1_000_000_000 - period * n,
    );
    assert(0 <= period <= 1_000_000_000) by (nonlinear_arith)
        requires
            n >= 1,
            period * n <= 1_000_000_000,
            1_000_000_000 < (period + 1) * n,
    ;
}

/// A sender opens a frame while frames are left: it asks for room for the whole
/// frame where frames may be dropped, else for the first chunk. After the last
/// one it says goodbye.
pub proof fn law_stream_frame_is_opened(
    m: TcpSenderModel,
    config: ClientConfig<String>,
    event: TcpEvent,
    now: u64,
    unix_us: u64,
)
    requires
        m.phase is Frame,
        config.frame_size > 0,
        config.chunk_size > 0,
        config.duration_sec * config.fps <= u64::MAX,
    ensures
        ({
            let (next, action) = stream_step(m, config, event, now, unix_us);
            let left = m.frames_sent < config.duration_sec * config.fps;
            &&& !left ==> action is Bye && next.phase is Ended
            &&& left ==> next.frame_started == now && next.next_chunk == 0 && next.frames_sent
                == m.frames_sent
            &&& left && config.drop_when_window_full ==> action == (TcpActionModel::ReserveFrame {
                bytes: config.frame_size as u64,
            })
            &&& left && !config.drop_when_window_full ==> action == (TcpActionModel::ReserveChunk {
                bytes: (if config.frame_size < config.chunk_size {
                    config.frame_size
                } else {
                    config.chunk_size
                }) as u64,
            })
        }),
{
    lemma_ceil_div_bounds(config.frame_size as int, config.chunk_size as int);
    assert(0 <= config.duration_sec * config.fps) by (nonlinear_arith)
        requires
            0 <= config.duration_sec,
            0 <= config.fps,
    ;
}

} // verus!
