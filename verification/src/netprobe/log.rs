//! The network probe's log: one JSON object per line.
use vstd::prelude::*;
use vstd::string::*;

use crate::netprobe::config::{ClientConfig, SendMode, ServerConfig, UdpClientConfig, UdpServerConfig};
use crate::netprobe::tcp_client::{FrameEvent, TcpSender};
use crate::netprobe::tcp_server::{ReadEnd, ServerEvent};
use crate::netprobe::udp_client::{UdpClientEvent, UdpClientStats};
use crate::netprobe::udp_server::{ExpireReason, OpenKind, UdpCounters, UdpEvent};
use crate::netprobe::wire::{FrameAckMsg, WireMessage};
use crate::text::{bool_text, decimal, json_escape, log_escaped, push_bool, push_decimal};

verus! {

// ---------------------------------------------------------------------------
// Fields
// ---------------------------------------------------------------------------

/// A field with a number.
pub open spec fn number_field(key: Seq<char>, value: nat) -> Seq<char> {
    ",\""@ + key + "\":"@ + decimal(value)
}

/// A field with a switch.
pub open spec fn flag_field(key: Seq<char>, value: bool) -> Seq<char> {
    ",\""@ + key + "\":"@ + bool_text(value)
}

/// A field with a text that needs no escape.
pub open spec fn plain_field(key: Seq<char>, value: Seq<char>) -> Seq<char> {
    ",\""@ + key + "\":\""@ + value + "\""@
}

/// A field with a text.
pub open spec fn text_field(key: Seq<char>, value: Seq<char>) -> Seq<char> {
    plain_field(key, log_escaped(value))
}

/// A line of the log.
pub open spec fn log_line(ts_ms: nat, side: Seq<char>, event: Seq<char>, fields: Seq<char>) -> Seq<char> {
    "{\"ts_ms\":"@ + decimal(ts_ms) + ",\"side\":\""@ + side + "\",\"event\":\""@ + event + "\""@ + fields
        + "}"@
}

fn push_number(text: &mut String, key: &str, value: u128)
    ensures
        final(text)@ == old(text)@ + number_field(key@, value as nat),
{
    text.append(",\"");
    text.append(key);
    text.append("\":");
    push_decimal(text, value);
    assert(text@ =~= old(text)@ + number_field(key@, value as nat));
}

fn push_flag(text: &mut String, key: &str, value: bool)
    ensures
        final(text)@ == old(text)@ + flag_field(key@, value),
{
    text.append(",\"");
    text.append(key);
    text.append("\":");
    push_bool(text, value);
    assert(text@ =~= old(text)@ + flag_field(key@, value));
}

fn push_plain(text: &mut String, key: &str, value: &str)
    ensures
        final(text)@ == old(text)@ + plain_field(key@, value@),
{
    text.append(",\"");
    text.append(key);
    text.append("\":\"");
    text.append(value);
    text.append("\"");
    assert(text@ =~= old(text)@ + plain_field(key@, value@));
}

fn push_text(text: &mut String, key: &str, value: &str)
    ensures
        final(text)@ == old(text)@ + text_field(key@, value@),
{
    push_plain(text, key, json_escape(value).as_str());
}

/// A line of the log.
pub fn event_line(ts_ms: u128, side: &str, event: &str, fields: &str) -> (line: String)
    ensures
        line@ == log_line(ts_ms as nat, side@, event@, fields@),
{
    let mut line = "{\"ts_ms\":".to_owned();
    push_decimal(&mut line, ts_ms);
    line.append(",\"side\":\"");
    line.append(side);
    line.append("\",\"event\":\"");
    line.append(event);
    line.append("\"");
    line.append(fields);
    line.append("}");
    line
}

/// The field of an error's text.
pub fn message_fields(message: &str) -> (text: String)
    ensures
        text@ == text_field("message"@, message@),
{
    let mut text = String::new();
    push_text(&mut text, "message", message);
    text
}

/// How the end of a stream is named.
pub open spec fn read_end_name(end: ReadEnd) -> Seq<char> {
    match end {
        ReadEnd::Eof => "eof"@,
        ReadEnd::ReadError => "read_error"@,
    }
}

fn read_end_text(end: ReadEnd) -> (text: &'static str)
    ensures
        text@ == read_end_name(end),
{
    match end {
        ReadEnd::Eof => "eof",
        ReadEnd::ReadError => "read_error",
    }
}

/// How the reason for giving up frames is named.
pub open spec fn expire_reason_name(reason: ExpireReason) -> Seq<char> {
    match reason {
        ExpireReason::Bye => "bye"@,
        ExpireReason::SessionReplaced => "session_replaced"@,
        ExpireReason::FrameTimeout => "frame_timeout"@,
        ExpireReason::ReadTimeout => "read_timeout"@,
    }
}

fn expire_reason_text(reason: ExpireReason) -> (text: &'static str)
    ensures
        text@ == expire_reason_name(reason),
{
    match reason {
        ExpireReason::Bye => "bye",
        ExpireReason::SessionReplaced => "session_replaced",
        ExpireReason::FrameTimeout => "frame_timeout",
        ExpireReason::ReadTimeout => "read_timeout",
    }
}

// ---------------------------------------------------------------------------
// TCP server
// ---------------------------------------------------------------------------

/// The event's name.
pub open spec fn server_event_name(event: ServerEvent) -> Seq<char> {
    match event {
        ServerEvent::Hello(_) => "hello"@,
        ServerEvent::BadChunk { .. } => "bad_chunk"@,
        ServerEvent::Chunk { .. } => "chunk"@,
        ServerEvent::FrameRxStart { .. } => "frame_rx_start"@,
        ServerEvent::FrameMismatch { .. } => "frame_mismatch"@,
        ServerEvent::DuplicateChunk { .. } => "duplicate_chunk"@,
        ServerEvent::FrameComplete { .. } => "frame_complete"@,
        ServerEvent::UnexpectedAck => "unexpected_ack"@,
        ServerEvent::Bye { .. } => "bye"@,
        ServerEvent::ReadEnded { end: ReadEnd::Eof, .. } => "eof"@,
        ServerEvent::ReadEnded { end: ReadEnd::ReadError, .. } => "read_error"@,
        ServerEvent::OpenFrame { .. } => "open_frame"@,
    }
}

/// The event's fields; `detail` is the text of a read error.
pub open spec fn server_event_fields(event: ServerEvent, detail: Seq<char>) -> Seq<char> {
    match event {
        ServerEvent::Hello(hello) => {
            plain_field("mode"@, SendMode::wire_name(hello.mode))
                + number_field("chunk_size"@, hello.chunk_size as nat)
                + number_field("frame_size"@, hello.frame_size as nat)
                + number_field("fps"@, hello.fps as nat)
                + number_field("duration_sec"@, hello.duration_sec as nat)
                + number_field("window_bytes"@, hello.window_bytes as nat)
        },
        ServerEvent::BadChunk { frame_id, chunk_index, chunk_count } => {
            number_field("frame_id"@, frame_id as nat)
                + number_field("chunk_index"@, chunk_index as nat)
                + number_field("chunk_count"@, chunk_count as nat)
        },
        ServerEvent::Chunk { frame_id, chunk_index, chunk_count, payload_len } => {
            number_field("frame_id"@, frame_id as nat)
                + number_field("chunk_index"@, chunk_index as nat)
                + number_field("chunk_count"@, chunk_count as nat)
                + number_field("payload_len"@, payload_len as nat)
        },
        ServerEvent::FrameRxStart { frame_id, chunk_count, frame_size, first_chunk_index } => {
            number_field("frame_id"@, frame_id as nat)
                + number_field("chunk_count"@, chunk_count as nat)
                + number_field("frame_size"@, frame_size as nat)
                + number_field("first_chunk_index"@, first_chunk_index as nat)
        },
        ServerEvent::FrameMismatch {
            frame_id,
            expected_chunks,
            got_chunks,
            expected_size,
            got_size,
        } => {
            number_field("frame_id"@, frame_id as nat)
                + number_field("expected_chunks"@, expected_chunks as nat)
                + number_field("got_chunks"@, got_chunks as nat)
                + number_field("expected_size"@, expected_size as nat)
                + number_field("got_size"@, got_size as nat)
        },
        ServerEvent::DuplicateChunk { frame_id, chunk_index } => {
            number_field("frame_id"@, frame_id as nat)
                + number_field("chunk_index"@, chunk_index as nat)
        },
        ServerEvent::FrameComplete {
            frame_id,
            chunks_seen,
            chunk_count,
            bytes_seen,
            sender_first_unix_us,
            elapsed_us,
        } => {
            number_field("frame_id"@, frame_id as nat)
                + number_field("chunks_seen"@, chunks_seen as nat)
                + number_field("chunk_count"@, chunk_count as nat)
                + number_field("bytes_seen"@, bytes_seen as nat)
                + number_field("sender_first_unix_us"@, sender_first_unix_us as nat)
                + number_field("elapsed_us"@, elapsed_us as nat)
        },
        ServerEvent::UnexpectedAck => seq![],
        ServerEvent::Bye { chunks_total, bytes_total, open_frames } => {
            number_field("chunks_total"@, chunks_total as nat)
                + number_field("bytes_total"@, bytes_total as nat)
                + number_field("open_frames"@, open_frames as nat)
        },
        ServerEvent::ReadEnded { end: ReadEnd::Eof, chunks_total, bytes_total, open_frames } => {
            number_field("chunks_total"@, chunks_total as nat)
                + number_field("bytes_total"@, bytes_total as nat)
                + number_field("open_frames"@, open_frames as nat)
        },
        ServerEvent::ReadEnded { end: ReadEnd::ReadError, chunks_total, bytes_total, open_frames } => {
            text_field("message"@, detail)
                + number_field("chunks_total"@, chunks_total as nat)
                + number_field("bytes_total"@, bytes_total as nat)
                + number_field("open_frames"@, open_frames as nat)
        },
        ServerEvent::OpenFrame {
            reason,
            frame_id,
            chunks_seen,
            chunk_count,
            bytes_seen,
            frame_size,
            elapsed_us,
        } => {
            text_field("reason"@, read_end_name(reason))
                + number_field("frame_id"@, frame_id as nat)
                + number_field("chunks_seen"@, chunks_seen as nat)
                + number_field("chunk_count"@, chunk_count as nat)
                + number_field("bytes_seen"@, bytes_seen as nat)
                + number_field("frame_size"@, frame_size as nat)
                + number_field("elapsed_us"@, elapsed_us as nat)
        },
    }
}

/// The line of an event; `detail` is the text of a read error.
pub fn server_event_line(ts_ms: u128, event: &ServerEvent, detail: &str) -> (line: String)
    ensures
        line@ == log_line(
            ts_ms as nat,
            "server"@,
            server_event_name(*event),
            server_event_fields(*event, detail@),
        ),
{
    let mut text = String::new();
    let name = match event {
        ServerEvent::Hello(hello) => {
            push_plain(&mut text, "mode", SendMode::from_wire(hello.mode));
            push_number(&mut text, "chunk_size", hello.chunk_size as u128);
            push_number(&mut text, "frame_size", hello.frame_size as u128);
            push_number(&mut text, "fps", hello.fps as u128);
            push_number(&mut text, "duration_sec", hello.duration_sec as u128);
            push_number(&mut text, "window_bytes", hello.window_bytes as u128);
            "hello"
        },
        ServerEvent::BadChunk { frame_id, chunk_index, chunk_count } => {
            push_number(&mut text, "frame_id", *frame_id as u128);
            push_number(&mut text, "chunk_index", *chunk_index as u128);
            push_number(&mut text, "chunk_count", *chunk_count as u128);
            "bad_chunk"
        },
        ServerEvent::Chunk { frame_id, chunk_index, chunk_count, payload_len } => {
            push_number(&mut text, "frame_id", *frame_id as u128);
            push_number(&mut text, "chunk_index", *chunk_index as u128);
            push_number(&mut text, "chunk_count", *chunk_count as u128);
            push_number(&mut text, "payload_len", *payload_len as u128);
            "chunk"
        },
        ServerEvent::FrameRxStart { frame_id, chunk_count, frame_size, first_chunk_index } => {
            push_number(&mut text, "frame_id", *frame_id as u128);
            push_number(&mut text, "chunk_count", *chunk_count as u128);
            push_number(&mut text, "frame_size", *frame_size as u128);
            push_number(&mut text, "first_chunk_index", *first_chunk_index as u128);
            "frame_rx_start"
        },
        ServerEvent::FrameMismatch { frame_id, expected_chunks, got_chunks, expected_size, got_size } => {
            push_number(&mut text, "frame_id", *frame_id as u128);
            push_number(&mut text, "expected_chunks", *expected_chunks as u128);
            push_number(&mut text, "got_chunks", *got_chunks as u128);
            push_number(&mut text, "expected_size", *expected_size as u128);
            push_number(&mut text, "got_size", *got_size as u128);
            "frame_mismatch"
        },
        ServerEvent::DuplicateChunk { frame_id, chunk_index } => {
            push_number(&mut text, "frame_id", *frame_id as u128);
            push_number(&mut text, "chunk_index", *chunk_index as u128);
            "duplicate_chunk"
        },
        ServerEvent::FrameComplete {
            frame_id,
            chunks_seen,
            chunk_count,
            bytes_seen,
            sender_first_unix_us,
            elapsed_us,
        } => {
            push_number(&mut text, "frame_id", *frame_id as u128);
            push_number(&mut text, "chunks_seen", *chunks_seen as u128);
            push_number(&mut text, "chunk_count", *chunk_count as u128);
            push_number(&mut text, "bytes_seen", *bytes_seen as u128);
            push_number(&mut text, "sender_first_unix_us", *sender_first_unix_us as u128);
            push_number(&mut text, "elapsed_us", *elapsed_us as u128);
            "frame_complete"
        },
        ServerEvent::UnexpectedAck => {
            "unexpected_ack"
        },
        ServerEvent::Bye { chunks_total, bytes_total, open_frames } => {
            push_number(&mut text, "chunks_total", *chunks_total as u128);
            push_number(&mut text, "bytes_total", *bytes_total as u128);
            push_number(&mut text, "open_frames", *open_frames as u128);
            "bye"
        },
        ServerEvent::ReadEnded { end: ReadEnd::Eof, chunks_total, bytes_total, open_frames } => {
            push_number(&mut text, "chunks_total", *chunks_total as u128);
            push_number(&mut text, "bytes_total", *bytes_total as u128);
            push_number(&mut text, "open_frames", *open_frames as u128);
            "eof"
        },
        ServerEvent::ReadEnded { end: ReadEnd::ReadError, chunks_total, bytes_total, open_frames } => {
            push_text(&mut text, "message", detail);
            push_number(&mut text, "chunks_total", *chunks_total as u128);
            push_number(&mut text, "bytes_total", *bytes_total as u128);
            push_number(&mut text, "open_frames", *open_frames as u128);
            "read_error"
        },
        ServerEvent::OpenFrame {
            reason,
            frame_id,
            chunks_seen,
            chunk_count,
            bytes_seen,
            frame_size,
            elapsed_us,
        } => {
            push_text(&mut text, "reason", read_end_text(*reason));
            push_number(&mut text, "frame_id", *frame_id as u128);
            push_number(&mut text, "chunks_seen", *chunks_seen as u128);
            push_number(&mut text, "chunk_count", *chunk_count as u128);
            push_number(&mut text, "bytes_seen", *bytes_seen as u128);
            push_number(&mut text, "frame_size", *frame_size as u128);
            push_number(&mut text, "elapsed_us", *elapsed_us as u128);
            "open_frame"
        },
    };
    assert(text@ =~= server_event_fields(*event, detail@));
    event_line(ts_ms, "server", name, text.as_str())
}

// ---------------------------------------------------------------------------
// UDP server
// ---------------------------------------------------------------------------

/// The event's name.
pub open spec fn udp_event_name(event: UdpEvent) -> Seq<char> {
    match event {
        UdpEvent::Peer { .. } => "peer"@,
        UdpEvent::SimulatedDrop { .. } => "simulated_drop"@,
        UdpEvent::BadPacket { .. } => "bad_packet"@,
        UdpEvent::PeerUpdate { .. } => "peer_update"@,
        UdpEvent::Session { .. } => "session"@,
        UdpEvent::InitialFrameVideoDrop { .. } => "simulated_initial_frame_video_drop"@,
        UdpEvent::BadChunk { .. } => "bad_chunk"@,
        UdpEvent::FrameOpened { kind: OpenKind::Announced, .. } => "frame_announced"@,
        UdpEvent::FrameOpened { kind: OpenKind::Gap, .. } => "frame_gap_opened"@,
        UdpEvent::FrameOpened { kind: OpenKind::Chunk(_), .. } => "frame_rx_start"@,
        UdpEvent::FrameGapCapped { .. } => "frame_gap_capped"@,
        UdpEvent::LateCompleteChunk { .. } => "late_complete_chunk"@,
        UdpEvent::Chunk { .. } => "chunk"@,
        UdpEvent::FrameMismatch { .. } => "frame_mismatch"@,
        UdpEvent::DuplicateChunk { .. } => "duplicate_chunk"@,
        UdpEvent::FrameComplete { .. } => "frame_complete"@,
        UdpEvent::FrameExpired { .. } => "frame_expired"@,
        UdpEvent::NackSent { .. } => "nack_sent"@,
    }
}

/// The event's fields; `address` is the text of its address.
pub open spec fn udp_event_fields(event: UdpEvent, address: Seq<char>) -> Seq<char> {
    match event {
        UdpEvent::Peer { .. } => text_field("addr"@, address),
        UdpEvent::SimulatedDrop { packet_index, bytes } => {
            number_field("packet_index"@, packet_index as nat)
                + number_field("bytes"@, bytes as nat)
        },
        UdpEvent::BadPacket { bytes, error, .. } => {
            text_field("peer"@, address)
                + number_field("bytes"@, bytes as nat)
                + text_field("message"@, error.words())
        },
        UdpEvent::PeerUpdate { session_id, .. } => {
            text_field("addr"@, address)
                + number_field("session_id"@, session_id as nat)
        },
        UdpEvent::Session { session_id, .. } => {
            text_field("addr"@, address)
                + number_field("session_id"@, session_id as nat)
        },
        UdpEvent::InitialFrameVideoDrop { frame_id, chunk_index, chunk_count } => {
            number_field("frame_id"@, frame_id as nat)
                + number_field("chunk_index"@, chunk_index as nat)
                + number_field("chunk_count"@, chunk_count as nat)
        },
        UdpEvent::BadChunk { frame_id, chunk_index, chunk_count } => {
            number_field("frame_id"@, frame_id as nat)
                + number_field("chunk_index"@, chunk_index as nat)
                + number_field("chunk_count"@, chunk_count as nat)
        },
        UdpEvent::FrameOpened { kind: OpenKind::Announced, frame_id, chunk_count, frame_size } => {
            number_field("frame_id"@, frame_id as nat)
                + number_field("chunk_count"@, chunk_count as nat)
                + number_field("frame_size"@, frame_size as nat)
        },
        UdpEvent::FrameOpened { kind: OpenKind::Gap, frame_id, chunk_count, frame_size } => {
            number_field("frame_id"@, frame_id as nat)
                + number_field("chunk_count"@, chunk_count as nat)
                + number_field("frame_size"@, frame_size as nat)
        },
        UdpEvent::FrameOpened { kind: OpenKind::Chunk(first), frame_id, chunk_count, frame_size } => {
            number_field("frame_id"@, frame_id as nat)
                + number_field("chunk_count"@, chunk_count as nat)
                + number_field("frame_size"@, frame_size as nat)
                + number_field("first_chunk_index"@, first as nat)
        },
        UdpEvent::FrameGapCapped { gap_start, gap_end, opened, cap } => {
            number_field("gap_start"@, gap_start as nat)
                + number_field("gap_end"@, gap_end as nat)
                + number_field("opened"@, opened as nat)
                + number_field("cap"@, cap as nat)
        },
        UdpEvent::LateCompleteChunk { frame_id, chunk_index } => {
            number_field("frame_id"@, frame_id as nat)
                + number_field("chunk_index"@, chunk_index as nat)
        },
        UdpEvent::Chunk { frame_id, chunk_index, chunk_count, payload_len } => {
            number_field("frame_id"@, frame_id as nat)
                + number_field("chunk_index"@, chunk_index as nat)
                + number_field("chunk_count"@, chunk_count as nat)
                + number_field("payload_len"@, payload_len as nat)
        },
        UdpEvent::FrameMismatch { frame_id, expected_chunks, got_chunks, expected_size, got_size } => {
            number_field("frame_id"@, frame_id as nat)
                + number_field("expected_chunks"@, expected_chunks as nat)
                + number_field("got_chunks"@, got_chunks as nat)
                + number_field("expected_size"@, expected_size as nat)
                + number_field("got_size"@, got_size as nat)
        },
        UdpEvent::DuplicateChunk { frame_id, chunk_index } => {
            number_field("frame_id"@, frame_id as nat)
                + number_field("chunk_index"@, chunk_index as nat)
        },
        UdpEvent::FrameComplete {
            frame_id,
            chunks_seen,
            chunk_count,
            bytes_seen,
            sender_first_unix_us,
            elapsed_us,
        } => {
            number_field("frame_id"@, frame_id as nat)
                + number_field("chunks_seen"@, chunks_seen as nat)
                + number_field("chunk_count"@, chunk_count as nat)
                + number_field("bytes_seen"@, bytes_seen as nat)
                + number_field("sender_first_unix_us"@, sender_first_unix_us as nat)
                + number_field("elapsed_us"@, elapsed_us as nat)
        },
        UdpEvent::FrameExpired {
            reason,
            frame_id,
            chunks_seen,
            chunk_count,
            missing_chunks,
            bytes_seen,
            frame_size,
            elapsed_us,
        } => {
            text_field("reason"@, expire_reason_name(reason))
                + number_field("frame_id"@, frame_id as nat)
                + number_field("chunks_seen"@, chunks_seen as nat)
                + number_field("chunk_count"@, chunk_count as nat)
                + number_field("missing_chunks"@, missing_chunks as nat)
                + number_field("bytes_seen"@, bytes_seen as nat)
                + number_field("frame_size"@, frame_size as nat)
                + number_field("elapsed_us"@, elapsed_us as nat)
        },
        UdpEvent::NackSent { frame_id, missing_chunks, round } => {
            number_field("frame_id"@, frame_id as nat)
                + number_field("missing_chunks"@, missing_chunks as nat)
                + number_field("round"@, round as nat)
        },
    }
}

/// The line of an event; `address` is the text of its address.
pub fn udp_event_line(ts_ms: u128, event: &UdpEvent, address: &str) -> (line: String)
    ensures
        line@ == log_line(
            ts_ms as nat,
            "udp_server"@,
            udp_event_name(*event),
            udp_event_fields(*event, address@),
        ),
{
    let mut text = String::new();
    let name = match event {
        UdpEvent::Peer { .. } => {
            push_text(&mut text, "addr", address);
            "peer"
        },
        UdpEvent::SimulatedDrop { packet_index, bytes } => {
            push_number(&mut text, "packet_index", *packet_index as u128);
            push_number(&mut text, "bytes", *bytes as u128);
            "simulated_drop"
        },
        UdpEvent::BadPacket { bytes, error, .. } => {
            push_text(&mut text, "peer", address);
            push_number(&mut text, "bytes", *bytes as u128);
            push_text(&mut text, "message", error.message());
            "bad_packet"
        },
        UdpEvent::PeerUpdate { session_id, .. } => {
            push_text(&mut text, "addr", address);
            push_number(&mut text, "session_id", *session_id as u128);
            "peer_update"
        },
        UdpEvent::Session { session_id, .. } => {
            push_text(&mut text, "addr", address);
            push_number(&mut text, "session_id", *session_id as u128);
            "session"
        },
        UdpEvent::InitialFrameVideoDrop { frame_id, chunk_index, chunk_count } => {
            push_number(&mut text, "frame_id", *frame_id as u128);
            push_number(&mut text, "chunk_index", *chunk_index as u128);
            push_number(&mut text, "chunk_count", *chunk_count as u128);
            "simulated_initial_frame_video_drop"
        },
        UdpEvent::BadChunk { frame_id, chunk_index, chunk_count } => {
            push_number(&mut text, "frame_id", *frame_id as u128);
            push_number(&mut text, "chunk_index", *chunk_index as u128);
            push_number(&mut text, "chunk_count", *chunk_count as u128);
            "bad_chunk"
        },
        UdpEvent::FrameOpened { kind: OpenKind::Announced, frame_id, chunk_count, frame_size } => {
            push_number(&mut text, "frame_id", *frame_id as u128);
            push_number(&mut text, "chunk_count", *chunk_count as u128);
            push_number(&mut text, "frame_size", *frame_size as u128);
            "frame_announced"
        },
        UdpEvent::FrameOpened { kind: OpenKind::Gap, frame_id, chunk_count, frame_size } => {
            push_number(&mut text, "frame_id", *frame_id as u128);
            push_number(&mut text, "chunk_count", *chunk_count as u128);
            push_number(&mut text, "frame_size", *frame_size as u128);
            "frame_gap_opened"
        },
        UdpEvent::FrameOpened { kind: OpenKind::Chunk(first), frame_id, chunk_count, frame_size } => {
            push_number(&mut text, "frame_id", *frame_id as u128);
            push_number(&mut text, "chunk_count", *chunk_count as u128);
            push_number(&mut text, "frame_size", *frame_size as u128);
            push_number(&mut text, "first_chunk_index", *first as u128);
            "frame_rx_start"
        },
        UdpEvent::FrameGapCapped { gap_start, gap_end, opened, cap } => {
            push_number(&mut text, "gap_start", *gap_start as u128);
            push_number(&mut text, "gap_end", *gap_end as u128);
            push_number(&mut text, "opened", *opened as u128);
            push_number(&mut text, "cap", *cap as u128);
            "frame_gap_capped"
        },
        UdpEvent::LateCompleteChunk { frame_id, chunk_index } => {
            push_number(&mut text, "frame_id", *frame_id as u128);
            push_number(&mut text, "chunk_index", *chunk_index as u128);
            "late_complete_chunk"
        },
        UdpEvent::Chunk { frame_id, chunk_index, chunk_count, payload_len } => {
            push_number(&mut text, "frame_id", *frame_id as u128);
            push_number(&mut text, "chunk_index", *chunk_index as u128);
            push_number(&mut text, "chunk_count", *chunk_count as u128);
            push_number(&mut text, "payload_len", *payload_len as u128);
            "chunk"
        },
        UdpEvent::FrameMismatch { frame_id, expected_chunks, got_chunks, expected_size, got_size } => {
            push_number(&mut text, "frame_id", *frame_id as u128);
            push_number(&mut text, "expected_chunks", *expected_chunks as u128);
            push_number(&mut text, "got_chunks", *got_chunks as u128);
            push_number(&mut text, "expected_size", *expected_size as u128);
            push_number(&mut text, "got_size", *got_size as u128);
            "frame_mismatch"
        },
        UdpEvent::DuplicateChunk { frame_id, chunk_index } => {
            push_number(&mut text, "frame_id", *frame_id as u128);
            push_number(&mut text, "chunk_index", *chunk_index as u128);
            "duplicate_chunk"
        },
        UdpEvent::FrameComplete {
            frame_id,
            chunks_seen,
            chunk_count,
            bytes_seen,
            sender_first_unix_us,
            elapsed_us,
        } => {
            push_number(&mut text, "frame_id", *frame_id as u128);
            push_number(&mut text, "chunks_seen", *chunks_seen as u128);
            push_number(&mut text, "chunk_count", *chunk_count as u128);
            push_number(&mut text, "bytes_seen", *bytes_seen as u128);
            push_number(&mut text, "sender_first_unix_us", *sender_first_unix_us as u128);
            push_number(&mut text, "elapsed_us", *elapsed_us as u128);
            "frame_complete"
        },
        UdpEvent::FrameExpired {
            reason,
            frame_id,
            chunks_seen,
            chunk_count,
            missing_chunks,
            bytes_seen,
            frame_size,
            elapsed_us,
        } => {
            push_text(&mut text, "reason", expire_reason_text(*reason));
            push_number(&mut text, "frame_id", *frame_id as u128);
            push_number(&mut text, "chunks_seen", *chunks_seen as u128);
            push_number(&mut text, "chunk_count", *chunk_count as u128);
            push_number(&mut text, "missing_chunks", *missing_chunks as u128);
            push_number(&mut text, "bytes_seen", *bytes_seen as u128);
            push_number(&mut text, "frame_size", *frame_size as u128);
            push_number(&mut text, "elapsed_us", *elapsed_us as u128);
            "frame_expired"
        },
        UdpEvent::NackSent { frame_id, missing_chunks, round } => {
            push_number(&mut text, "frame_id", *frame_id as u128);
            push_number(&mut text, "missing_chunks", *missing_chunks as u128);
            push_number(&mut text, "round", *round as u128);
            "nack_sent"
        },
    };
    assert(text@ =~= udp_event_fields(*event, address@));
    event_line(ts_ms, "udp_server", name, text.as_str())
}

// ---------------------------------------------------------------------------
// UDP client
// ---------------------------------------------------------------------------

/// The name of what a sender reports of its frames.
pub open spec fn frame_event_name(event: FrameEvent) -> Seq<char> {
    match event {
        FrameEvent::Start { .. } => "frame_send_start"@,
        FrameEvent::ChunkSent { .. } => "chunk_sent"@,
        FrameEvent::Sent { .. } => "frame_sent"@,
        FrameEvent::Skipped { .. } => "frame_skipped_window_full"@,
        FrameEvent::Late { .. } => "schedule_late"@,
    }
}

/// The fields of what a sender reports of its frames.
pub open spec fn frame_event_fields(event: FrameEvent) -> Seq<char> {
    match event {
        FrameEvent::Start { frame_id, chunk_count, frame_size } => {
            number_field("frame_id"@, frame_id as nat)
                + number_field("chunk_count"@, chunk_count as nat)
                + number_field("frame_size"@, frame_size as nat)
        },
        FrameEvent::ChunkSent { frame_id, chunk_index, chunk_count, payload_len } => {
            number_field("frame_id"@, frame_id as nat)
                + number_field("chunk_index"@, chunk_index as nat)
                + number_field("chunk_count"@, chunk_count as nat)
                + number_field("payload_len"@, payload_len as nat)
        },
        FrameEvent::Sent { frame_id, chunks_sent, bytes_sent, elapsed_us } => {
            number_field("frame_id"@, frame_id as nat)
                + number_field("chunks_sent"@, chunks_sent as nat)
                + number_field("bytes_sent"@, bytes_sent as nat)
                + number_field("elapsed_us"@, elapsed_us as nat)
        },
        FrameEvent::Skipped { frame_id, frame_size, window_bytes, window_wait_ms } => {
            number_field("frame_id"@, frame_id as nat)
                + number_field("frame_size"@, frame_size as nat)
                + number_field("window_bytes"@, window_bytes as nat)
                + number_field("window_wait_ms"@, window_wait_ms as nat)
        },
        FrameEvent::Late { frame_id, elapsed_ms } => {
            number_field("frame_id"@, frame_id as nat) + number_field("elapsed_ms"@, elapsed_ms as nat)
        },
    }
}

fn push_frame_event(text: &mut String, event: &FrameEvent) -> (name: &'static str)
    ensures
        name@ == frame_event_name(*event),
        final(text)@ == old(text)@ + frame_event_fields(*event),
{
    let name = match event {
        FrameEvent::Start { frame_id, chunk_count, frame_size } => {
            push_number(text, "frame_id", *frame_id as u128);
            push_number(text, "chunk_count", *chunk_count as u128);
            push_number(text, "frame_size", *frame_size as u128);
            "frame_send_start"
        },
        FrameEvent::ChunkSent { frame_id, chunk_index, chunk_count, payload_len } => {
            push_number(text, "frame_id", *frame_id as u128);
            push_number(text, "chunk_index", *chunk_index as u128);
            push_number(text, "chunk_count", *chunk_count as u128);
            push_number(text, "payload_len", *payload_len as u128);
            "chunk_sent"
        },
        FrameEvent::Sent { frame_id, chunks_sent, bytes_sent, elapsed_us } => {
            push_number(text, "frame_id", *frame_id as u128);
            push_number(text, "chunks_sent", *chunks_sent as u128);
            push_number(text, "bytes_sent", *bytes_sent as u128);
            push_number(text, "elapsed_us", *elapsed_us as u128);
            "frame_sent"
        },
        FrameEvent::Skipped { frame_id, frame_size, window_bytes, window_wait_ms } => {
            push_number(text, "frame_id", *frame_id as u128);
            push_number(text, "frame_size", *frame_size as u128);
            push_number(text, "window_bytes", *window_bytes as u128);
            push_number(text, "window_wait_ms", *window_wait_ms as u128);
            "frame_skipped_window_full"
        },
        FrameEvent::Late { frame_id, elapsed_ms } => {
            push_number(text, "frame_id", *frame_id as u128);
            push_number(text, "elapsed_ms", *elapsed_ms as u128);
            "schedule_late"
        },
    };
    assert(text@ =~= old(text)@ + frame_event_fields(*event));
    name
}

/// The line of what a TCP client reports of its frames.
pub fn client_event_line(ts_ms: u128, event: &FrameEvent) -> (line: String)
    ensures
        line@ == log_line(ts_ms as nat, "client"@, frame_event_name(*event), frame_event_fields(*event)),
{
    let mut text = String::new();
    let name = push_frame_event(&mut text, event);
    assert(text@ =~= frame_event_fields(*event));
    event_line(ts_ms, "client", name, text.as_str())
}

/// The event's name.
pub open spec fn udp_client_event_name(event: UdpClientEvent) -> Seq<char> {
    match event {
        UdpClientEvent::Frame(event) => frame_event_name(event),
        UdpClientEvent::BadControlPacket { .. } => "bad_control_packet"@,
        UdpClientEvent::StreamStatus(_) => "stream_status"@,
        UdpClientEvent::StaleNack { .. } => "stale_nack"@,
        UdpClientEvent::NackCacheMiss { .. } => "nack_cache_miss"@,
        UdpClientEvent::NackHandled { .. } => "nack_handled"@,
    }
}

/// The event's fields.
pub open spec fn udp_client_event_fields(event: UdpClientEvent) -> Seq<char> {
    match event {
        UdpClientEvent::Frame(event) => frame_event_fields(event),
        UdpClientEvent::BadControlPacket { bytes, error } => {
            number_field("bytes"@, bytes as nat)
                + text_field("message"@, error.words())
        },
        UdpClientEvent::StreamStatus(status) => {
            number_field("last_observed_frame_id"@, status.last_observed_frame_id as nat)
                + number_field("frames_complete"@, status.frames_complete as nat)
                + number_field("frames_skipped"@, status.frames_skipped as nat)
                + number_field("open_frames"@, status.open_frames as nat)
                + number_field("chunks_total"@, status.chunks_total as nat)
                + number_field("announce_packets_total"@, status.announce_packets_total as nat)
        },
        UdpClientEvent::StaleNack { frame_id, session_id } => {
            number_field("frame_id"@, frame_id as nat)
                + number_field("session_id"@, session_id as nat)
        },
        UdpClientEvent::NackCacheMiss { frame_id, requested_chunks } => {
            number_field("frame_id"@, frame_id as nat)
                + number_field("requested_chunks"@, requested_chunks as nat)
        },
        UdpClientEvent::NackHandled { frame_id, requested_chunks } => {
            number_field("frame_id"@, frame_id as nat)
                + number_field("requested_chunks"@, requested_chunks as nat)
        },
    }
}

/// The line of an event.
pub fn udp_client_event_line(ts_ms: u128, event: &UdpClientEvent) -> (line: String)
    ensures
        line@ == log_line(
            ts_ms as nat,
            "udp_client"@,
            udp_client_event_name(*event),
            udp_client_event_fields(*event),
        ),
{
    let mut text = String::new();
    let name = match event {
        UdpClientEvent::Frame(event) => push_frame_event(&mut text, event),
        UdpClientEvent::BadControlPacket { bytes, error } => {
            push_number(&mut text, "bytes", *bytes as u128);
            push_text(&mut text, "message", error.message());
            "bad_control_packet"
        },
        UdpClientEvent::StreamStatus(status) => {
            push_number(&mut text, "last_observed_frame_id", status.last_observed_frame_id as u128);
            push_number(&mut text, "frames_complete", status.frames_complete as u128);
            push_number(&mut text, "frames_skipped", status.frames_skipped as u128);
            push_number(&mut text, "open_frames", status.open_frames as u128);
            push_number(&mut text, "chunks_total", status.chunks_total as u128);
            push_number(&mut text, "announce_packets_total", status.announce_packets_total as u128);
            "stream_status"
        },
        UdpClientEvent::StaleNack { frame_id, session_id } => {
            push_number(&mut text, "frame_id", *frame_id as u128);
            push_number(&mut text, "session_id", *session_id as u128);
            "stale_nack"
        },
        UdpClientEvent::NackCacheMiss { frame_id, requested_chunks } => {
            push_number(&mut text, "frame_id", *frame_id as u128);
            push_number(&mut text, "requested_chunks", *requested_chunks as u128);
            "nack_cache_miss"
        },
        UdpClientEvent::NackHandled { frame_id, requested_chunks } => {
            push_number(&mut text, "frame_id", *frame_id as u128);
            push_number(&mut text, "requested_chunks", *requested_chunks as u128);
            "nack_handled"
        },
    };
    assert(text@ =~= udp_client_event_fields(*event));
    event_line(ts_ms, "udp_client", name, text.as_str())
}

// ---------------------------------------------------------------------------
// Starts and summaries
// ---------------------------------------------------------------------------

/// The fields of the event with which a TCP server starts.
pub fn server_listen_fields(config: &ServerConfig<String>) -> (text: String)
    ensures
        text@ == text_field("bind"@, config.bind@)
            + number_field("ack_every_chunks"@, config.ack_every_chunks as nat)
            + number_field("pause_read_after_ms"@, config.pause_read_after_ms as nat)
            + number_field("pause_read_duration_ms"@, config.pause_read_duration_ms as nat)
            + number_field("pause_read_repeat_ms"@, config.pause_read_repeat_ms as nat)
            + flag_field("tcp_nodelay"@, config.tcp_nodelay),
{
    let mut text = String::new();
    push_text(&mut text, "bind", config.bind.as_str());
    push_number(&mut text, "ack_every_chunks", config.ack_every_chunks as u128);
    push_number(&mut text, "pause_read_after_ms", config.pause_read_after_ms as u128);
    push_number(&mut text, "pause_read_duration_ms", config.pause_read_duration_ms as u128);
    push_number(&mut text, "pause_read_repeat_ms", config.pause_read_repeat_ms as u128);
    push_flag(&mut text, "tcp_nodelay", config.tcp_nodelay);
    text
}

/// The fields of the event with which a read pause starts.
pub fn pause_start_fields(pause_index: u64, elapsed_ms: u128, duration_ms: u64) -> (text: String)
    ensures
        text@ == number_field("pause_index"@, pause_index as nat)
            + number_field("elapsed_ms"@, elapsed_ms as nat)
            + number_field("duration_ms"@, duration_ms as nat),
{
    let mut text = String::new();
    push_number(&mut text, "pause_index", pause_index as u128);
    push_number(&mut text, "elapsed_ms", elapsed_ms as u128);
    push_number(&mut text, "duration_ms", duration_ms as u128);
    text
}

/// The fields of the event with which a read pause ends.
pub fn pause_end_fields(pause_index: u64, elapsed_ms: u128) -> (text: String)
    ensures
        text@ == number_field("pause_index"@, pause_index as nat)
            + number_field("elapsed_ms"@, elapsed_ms as nat),
{
    let mut text = String::new();
    push_number(&mut text, "pause_index", pause_index as u128);
    push_number(&mut text, "elapsed_ms", elapsed_ms as u128);
    text
}

/// The fields of a connection that was accepted.
pub fn accept_fields(peer: &str, read_timeout_ms: u64) -> (text: String)
    ensures
        text@ == text_field("peer"@, peer@) + number_field("read_timeout_ms"@, read_timeout_ms as nat),
{
    let mut text = String::new();
    push_text(&mut text, "peer", peer);
    push_number(&mut text, "read_timeout_ms", read_timeout_ms as u128);
    text
}

/// The fields of an acknowledgement that could not be written.
pub fn ack_error_fields(frame_id: u64, message: &str) -> (text: String)
    ensures
        text@ == number_field("frame_id"@, frame_id as nat) + text_field("message"@, message@),
{
    let mut text = String::new();
    push_number(&mut text, "frame_id", frame_id as u128);
    push_text(&mut text, "message", message);
    text
}

/// The fields of the event with which a UDP server starts.
pub fn udp_listen_fields(config: &UdpServerConfig<String>) -> (text: String)
    ensures
        text@ == text_field("bind"@, config.bind@)
            + number_field("read_timeout_ms"@, config.read_timeout_ms as nat)
            + number_field("frame_timeout_ms"@, config.frame_timeout_ms as nat)
            + number_field("drop_every"@, config.drop_every as nat)
            + number_field("drop_initial_frame_video_every"@, config.drop_initial_frame_video_every as nat)
            + number_field("nack_delay_ms"@, config.nack_delay_ms as nat)
            + number_field("nack_interval_ms"@, config.nack_interval_ms as nat)
            + number_field("nack_rounds"@, config.nack_rounds as nat)
            + number_field("nack_max_chunks"@, config.nack_max_chunks as nat)
            + flag_field("nack_empty_frames"@, config.nack_empty_frames)
            + number_field("status_interval_ms"@, config.status_interval_ms as nat),
{
    let mut text = String::new();
    push_text(&mut text, "bind", config.bind.as_str());
    push_number(&mut text, "read_timeout_ms", config.read_timeout_ms as u128);
    push_number(&mut text, "frame_timeout_ms", config.frame_timeout_ms as u128);
    push_number(&mut text, "drop_every", config.drop_every as u128);
    push_number(&mut text, "drop_initial_frame_video_every", config.drop_initial_frame_video_every as u128);
    push_number(&mut text, "nack_delay_ms", config.nack_delay_ms as u128);
    push_number(&mut text, "nack_interval_ms", config.nack_interval_ms as u128);
    push_number(&mut text, "nack_rounds", config.nack_rounds as u128);
    push_number(&mut text, "nack_max_chunks", config.nack_max_chunks as u128);
    push_flag(&mut text, "nack_empty_frames", config.nack_empty_frames);
    push_number(&mut text, "status_interval_ms", config.status_interval_ms as u128);
    text
}

/// The fields of a request that could not be sent.
pub fn nack_error_fields(frame_id: u64, missing_chunks: u32, message: &str) -> (text: String)
    ensures
        text@ == number_field("frame_id"@, frame_id as nat)
            + number_field("missing_chunks"@, missing_chunks as nat)
            + text_field("message"@, message@),
{
    let mut text = String::new();
    push_number(&mut text, "frame_id", frame_id as u128);
    push_number(&mut text, "missing_chunks", missing_chunks as u128);
    push_text(&mut text, "message", message);
    text
}

/// The fields of a UDP server's summary.
pub fn udp_summary_fields(reason: &str, counters: &UdpCounters, open_frames: usize) -> (text: String)
    ensures
        text@ == plain_field("reason"@, reason@)
            + number_field("packets_total"@, counters.packets_total as nat)
            + number_field("packets_dropped"@, counters.packets_dropped as nat)
            + number_field("announce_packets_total"@, counters.announce_packets_total as nat)
            + number_field("chunks_total"@, counters.chunks_total as nat)
            + number_field("bytes_total"@, counters.bytes_total as nat)
            + number_field("frames_complete"@, counters.frames_complete as nat)
            + number_field("frames_expired"@, counters.frames_expired as nat)
            + number_field("open_frames"@, open_frames as nat)
            + number_field("synthetic_frames_opened"@, counters.synthetic_frames_opened as nat)
            + number_field("nack_packets_sent"@, counters.nack_packets_sent as nat)
            + number_field("nack_chunks_requested"@, counters.nack_chunks_requested as nat)
            + number_field("status_packets_sent"@, counters.status_packets_sent as nat),
{
    let mut text = String::new();
    push_plain(&mut text, "reason", reason);
    push_number(&mut text, "packets_total", counters.packets_total as u128);
    push_number(&mut text, "packets_dropped", counters.packets_dropped as u128);
    push_number(&mut text, "announce_packets_total", counters.announce_packets_total as u128);
    push_number(&mut text, "chunks_total", counters.chunks_total as u128);
    push_number(&mut text, "bytes_total", counters.bytes_total as u128);
    push_number(&mut text, "frames_complete", counters.frames_complete as u128);
    push_number(&mut text, "frames_expired", counters.frames_expired as u128);
    push_number(&mut text, "open_frames", open_frames as u128);
    push_number(&mut text, "synthetic_frames_opened", counters.synthetic_frames_opened as u128);
    push_number(&mut text, "nack_packets_sent", counters.nack_packets_sent as u128);
    push_number(&mut text, "nack_chunks_requested", counters.nack_chunks_requested as u128);
    push_number(&mut text, "status_packets_sent", counters.status_packets_sent as u128);
    text
}

/// The fields of the event with which a TCP client starts.
pub fn client_connect_fields(config: &ClientConfig<String>) -> (text: String)
    ensures
        text@ == text_field("peer"@, config.connect@)
            + plain_field("mode"@, config.mode.name())
            + number_field("duration_sec"@, config.duration_sec as nat)
            + number_field("fps"@, config.fps as nat)
            + number_field("frame_size"@, config.frame_size as nat)
            + number_field("chunk_size"@, config.chunk_size as nat)
            + number_field("window_bytes"@, config.window_bytes as nat)
            + number_field("window_wait_ms"@, config.window_wait_ms as nat)
            + flag_field("drop_when_window_full"@, config.drop_when_window_full)
            + number_field("pace_every"@, config.pace_every as nat)
            + number_field("pace_us"@, config.pace_us as nat)
            + number_field("io_timeout_ms"@, config.io_timeout_ms as nat)
            + flag_field("tcp_nodelay"@, config.tcp_nodelay),
{
    let mut text = String::new();
    push_text(&mut text, "peer", config.connect.as_str());
    push_plain(&mut text, "mode", config.mode.as_str());
    push_number(&mut text, "duration_sec", config.duration_sec as u128);
    push_number(&mut text, "fps", config.fps as u128);
    push_number(&mut text, "frame_size", config.frame_size as u128);
    push_number(&mut text, "chunk_size", config.chunk_size as u128);
    push_number(&mut text, "window_bytes", config.window_bytes as u128);
    push_number(&mut text, "window_wait_ms", config.window_wait_ms as u128);
    push_flag(&mut text, "drop_when_window_full", config.drop_when_window_full);
    push_number(&mut text, "pace_every", config.pace_every as u128);
    push_number(&mut text, "pace_us", config.pace_us as u128);
    push_number(&mut text, "io_timeout_ms", config.io_timeout_ms as u128);
    push_flag(&mut text, "tcp_nodelay", config.tcp_nodelay);
    text
}

/// The fields of a chunk that could not be written.
pub fn chunk_error_fields(frame_id: u64, chunk_index: u32, chunk_count: u32, message: &str) -> (text: String)
    ensures
        text@ == number_field("frame_id"@, frame_id as nat)
            + number_field("chunk_index"@, chunk_index as nat)
            + number_field("chunk_count"@, chunk_count as nat)
            + text_field("message"@, message@),
{
    let mut text = String::new();
    push_number(&mut text, "frame_id", frame_id as u128);
    push_number(&mut text, "chunk_index", chunk_index as u128);
    push_number(&mut text, "chunk_count", chunk_count as u128);
    push_text(&mut text, "message", message);
    text
}

/// A message in words.
pub open spec fn message_words(message: WireMessage) -> Seq<char> {
    match message {
        WireMessage::Hello(hello) => {
            "Hello(HelloMsg {"@
                + " chunk_size: "@ + decimal(hello.chunk_size as nat)
                + ", frame_size: "@ + decimal(hello.frame_size as nat)
                + ", fps: "@ + decimal(hello.fps as nat)
                + ", duration_sec: "@ + decimal(hello.duration_sec as nat)
                + ", window_bytes: "@ + decimal(hello.window_bytes as nat)
                + ", mode: "@ + decimal(hello.mode as nat)
                + " })"@
        },
        WireMessage::Chunk(chunk) => {
            "Chunk(ChunkMsg {"@
                + " frame_id: "@ + decimal(chunk.frame_id as nat)
                + ", chunk_index: "@ + decimal(chunk.chunk_index as nat)
                + ", chunk_count: "@ + decimal(chunk.chunk_count as nat)
                + ", frame_size: "@ + decimal(chunk.frame_size as nat)
                + ", sent_unix_us: "@ + decimal(chunk.sent_unix_us as nat)
                + ", payload_len: "@ + decimal(chunk.payload_len as nat)
                + " })"@
        },
        WireMessage::FrameAck(ack) => {
            "FrameAck(FrameAckMsg {"@
                + " frame_id: "@ + decimal(ack.frame_id as nat)
                + ", chunks_seen: "@ + decimal(ack.chunks_seen as nat)
                + ", chunk_count: "@ + decimal(ack.chunk_count as nat)
                + ", frame_size: "@ + decimal(ack.frame_size as nat)
                + ", bytes_seen: "@ + decimal(ack.bytes_seen as nat)
                + ", complete_unix_us: "@ + decimal(ack.complete_unix_us as nat)
                + ", receive_elapsed_us: "@ + decimal(ack.receive_elapsed_us as nat)
                + ", complete: "@ + bool_text(ack.complete)
                + " })"@
        },
        WireMessage::Bye => "Bye"@,
    }
}

fn message_text(message: &WireMessage) -> (text: String)
    ensures
        text@ == message_words(*message),
{
    let mut text = String::new();
    match message {
        WireMessage::Hello(hello) => {
            text.append("Hello(HelloMsg {");
            text.append(" chunk_size: ");
            push_decimal(&mut text, hello.chunk_size as u128);
            text.append(", frame_size: ");
            push_decimal(&mut text, hello.frame_size as u128);
            text.append(", fps: ");
            push_decimal(&mut text, hello.fps as u128);
            text.append(", duration_sec: ");
            push_decimal(&mut text, hello.duration_sec as u128);
            text.append(", window_bytes: ");
            push_decimal(&mut text, hello.window_bytes as u128);
            text.append(", mode: ");
            push_decimal(&mut text, hello.mode as u128);
            text.append(" })");
        },
        WireMessage::Chunk(chunk) => {
            text.append("Chunk(ChunkMsg {");
            text.append(" frame_id: ");
            push_decimal(&mut text, chunk.frame_id as u128);
            text.append(", chunk_index: ");
            push_decimal(&mut text, chunk.chunk_index as u128);
            text.append(", chunk_count: ");
            push_decimal(&mut text, chunk.chunk_count as u128);
            text.append(", frame_size: ");
            push_decimal(&mut text, chunk.frame_size as u128);
            text.append(", sent_unix_us: ");
            push_decimal(&mut text, chunk.sent_unix_us as u128);
            text.append(", payload_len: ");
            push_decimal(&mut text, chunk.payload_len as u128);
            text.append(" })");
        },
        WireMessage::FrameAck(ack) => {
            text.append("FrameAck(FrameAckMsg {");
            text.append(" frame_id: ");
            push_decimal(&mut text, ack.frame_id as u128);
            text.append(", chunks_seen: ");
            push_decimal(&mut text, ack.chunks_seen as u128);
            text.append(", chunk_count: ");
            push_decimal(&mut text, ack.chunk_count as u128);
            text.append(", frame_size: ");
            push_decimal(&mut text, ack.frame_size as u128);
            text.append(", bytes_seen: ");
            push_decimal(&mut text, ack.bytes_seen as u128);
            text.append(", complete_unix_us: ");
            push_decimal(&mut text, ack.complete_unix_us as u128);
            text.append(", receive_elapsed_us: ");
            push_decimal(&mut text, ack.receive_elapsed_us as u128);
            text.append(", complete: ");
            push_bool(&mut text, ack.complete);
            text.append(" })");
        },
        WireMessage::Bye => {
            text.append("Bye");
        },
    }
    assert(text@ =~= message_words(*message));
    text
}

/// The fields of a message that a TCP client did not expect.
pub fn unexpected_fields(message: &WireMessage) -> (text: String)
    ensures
        text@ == text_field("message"@, message_words(*message)),
{
    message_fields(message_text(message).as_str())
}

/// The fields of a wait for room in the window that took too long.
pub fn window_timeout_fields(
    frame_id: u64,
    inflight_bytes: u64,
    required_bytes: u64,
    config: &ClientConfig<String>,
) -> (text: String)
    ensures
        text@ == number_field("frame_id"@, frame_id as nat)
            + number_field("inflight_bytes"@, inflight_bytes as nat)
            + number_field("window_bytes"@, config.window_bytes as nat)
            + number_field("required_bytes"@, required_bytes as nat)
            + number_field("window_wait_ms"@, config.window_wait_ms as nat),
{
    let mut text = String::new();
    push_number(&mut text, "frame_id", frame_id as u128);
    push_number(&mut text, "inflight_bytes", inflight_bytes as u128);
    push_number(&mut text, "window_bytes", config.window_bytes as u128);
    push_number(&mut text, "required_bytes", required_bytes as u128);
    push_number(&mut text, "window_wait_ms", config.window_wait_ms as u128);
    text
}

/// The fields of an acknowledgement.
pub fn frame_ack_fields(
    ack: &FrameAckMsg,
    newly_acked_bytes: u64,
    inflight_bytes: u64,
    acked_frames: u64,
    acked_bytes: u64,
) -> (text: String)
    ensures
        text@ == number_field("frame_id"@, ack.frame_id as nat)
            + flag_field("complete"@, ack.complete)
            + number_field("chunks_seen"@, ack.chunks_seen as nat)
            + number_field("chunk_count"@, ack.chunk_count as nat)
            + number_field("frame_size"@, ack.frame_size as nat)
            + number_field("bytes_seen"@, ack.bytes_seen as nat)
            + number_field("newly_acked_bytes"@, newly_acked_bytes as nat)
            + number_field("inflight_bytes"@, inflight_bytes as nat)
            + number_field("acked_frames"@, acked_frames as nat)
            + number_field("acked_bytes"@, acked_bytes as nat)
            + number_field("receive_elapsed_us"@, ack.receive_elapsed_us as nat),
{
    let mut text = String::new();
    push_number(&mut text, "frame_id", ack.frame_id as u128);
    push_flag(&mut text, "complete", ack.complete);
    push_number(&mut text, "chunks_seen", ack.chunks_seen as u128);
    push_number(&mut text, "chunk_count", ack.chunk_count as u128);
    push_number(&mut text, "frame_size", ack.frame_size as u128);
    push_number(&mut text, "bytes_seen", ack.bytes_seen as u128);
    push_number(&mut text, "newly_acked_bytes", newly_acked_bytes as u128);
    push_number(&mut text, "inflight_bytes", inflight_bytes as u128);
    push_number(&mut text, "acked_frames", acked_frames as u128);
    push_number(&mut text, "acked_bytes", acked_bytes as u128);
    push_number(&mut text, "receive_elapsed_us", ack.receive_elapsed_us as u128);
    text
}

/// The fields of a TCP client's summary.
pub fn client_summary_fields(
    sender: &TcpSender,
    acked_frames: u64,
    acked_bytes: u64,
    inflight_bytes: u64,
) -> (text: String)
    ensures
        text@ == number_field("frames_sent"@, sender.frames_sent as nat)
            + number_field("frames_skipped"@, sender.frames_skipped as nat)
            + number_field("chunks_sent"@, sender.chunks_sent as nat)
            + number_field("bytes_sent"@, sender.bytes_sent as nat)
            + number_field("acked_frames"@, acked_frames as nat)
            + number_field("acked_bytes"@, acked_bytes as nat)
            + number_field("inflight_bytes"@, inflight_bytes as nat),
{
    let mut text = String::new();
    push_number(&mut text, "frames_sent", sender.frames_sent as u128);
    push_number(&mut text, "frames_skipped", sender.frames_skipped as u128);
    push_number(&mut text, "chunks_sent", sender.chunks_sent as u128);
    push_number(&mut text, "bytes_sent", sender.bytes_sent as u128);
    push_number(&mut text, "acked_frames", acked_frames as u128);
    push_number(&mut text, "acked_bytes", acked_bytes as u128);
    push_number(&mut text, "inflight_bytes", inflight_bytes as u128);
    text
}

/// The fields of the event with which a UDP client starts.
pub fn udp_connect_fields(config: &UdpClientConfig<String>, session_id: u64) -> (text: String)
    ensures
        text@ == text_field("peer"@, config.connect@)
            + text_field("bind"@, config.bind@)
            + number_field("session_id"@, session_id as nat)
            + number_field("duration_sec"@, config.duration_sec as nat)
            + number_field("fps"@, config.fps as nat)
            + number_field("frame_size"@, config.frame_size as nat)
            + number_field("payload_size"@, config.payload_size as nat)
            + number_field("pace_every"@, config.pace_every as nat)
            + number_field("pace_us"@, config.pace_us as nat)
            + number_field("resend_cache_frames"@, config.resend_cache_frames as nat)
            + number_field("nack_linger_ms"@, config.nack_linger_ms as nat)
            + flag_field("announce_frames"@, config.announce_frames),
{
    let mut text = String::new();
    push_text(&mut text, "peer", config.connect.as_str());
    push_text(&mut text, "bind", config.bind.as_str());
    push_number(&mut text, "session_id", session_id as u128);
    push_number(&mut text, "duration_sec", config.duration_sec as u128);
    push_number(&mut text, "fps", config.fps as u128);
    push_number(&mut text, "frame_size", config.frame_size as u128);
    push_number(&mut text, "payload_size", config.payload_size as u128);
    push_number(&mut text, "pace_every", config.pace_every as u128);
    push_number(&mut text, "pace_us", config.pace_us as u128);
    push_number(&mut text, "resend_cache_frames", config.resend_cache_frames as u128);
    push_number(&mut text, "nack_linger_ms", config.nack_linger_ms as u128);
    push_flag(&mut text, "announce_frames", config.announce_frames);
    text
}

/// The fields of a farewell that could not be sent.
pub fn bye_error_fields(bye_index: u32, error: &str) -> (text: String)
    ensures
        text@ == number_field("bye_index"@, bye_index as nat) + text_field("error"@, error@),
{
    let mut text = String::new();
    push_number(&mut text, "bye_index", bye_index as u128);
    push_text(&mut text, "error", error);
    text
}

/// The fields of a UDP client's summary.
pub fn udp_client_summary_fields(
    frames_sent: u64,
    packets_sent: u64,
    bytes_sent: u64,
    elapsed_ms: u128,
    stats: &UdpClientStats,
) -> (text: String)
    ensures
        text@ == number_field("frames_sent"@, frames_sent as nat)
            + number_field("packets_sent"@, packets_sent as nat)
            + number_field("announce_packets_sent"@, stats.announce_packets_sent as nat)
            + number_field("bytes_sent"@, bytes_sent as nat)
            + number_field("elapsed_ms"@, elapsed_ms as nat)
            + number_field("nacks_received"@, stats.nacks_received as nat)
            + number_field("nack_chunks_requested"@, stats.nack_chunks_requested as nat)
            + number_field("retransmit_packets"@, stats.retransmit_packets as nat)
            + number_field("retransmit_bytes"@, stats.retransmit_bytes as nat)
            + number_field("retransmit_misses"@, stats.retransmit_misses as nat)
            + number_field("statuses_received"@, stats.statuses_received as nat)
            + number_field("status_last_observed_frame_id"@, stats.status_last_observed_frame_id as nat)
            + number_field("status_frames_complete"@, stats.status_frames_complete as nat)
            + number_field("status_frames_skipped"@, stats.status_frames_skipped as nat),
{
    let mut text = String::new();
    push_number(&mut text, "frames_sent", frames_sent as u128);
    push_number(&mut text, "packets_sent", packets_sent as u128);
    push_number(&mut text, "announce_packets_sent", stats.announce_packets_sent as u128);
    push_number(&mut text, "bytes_sent", bytes_sent as u128);
    push_number(&mut text, "elapsed_ms", elapsed_ms as u128);
    push_number(&mut text, "nacks_received", stats.nacks_received as u128);
    push_number(&mut text, "nack_chunks_requested", stats.nack_chunks_requested as u128);
    push_number(&mut text, "retransmit_packets", stats.retransmit_packets as u128);
    push_number(&mut text, "retransmit_bytes", stats.retransmit_bytes as u128);
    push_number(&mut text, "retransmit_misses", stats.retransmit_misses as u128);
    push_number(&mut text, "statuses_received", stats.statuses_received as u128);
    push_number(&mut text, "status_last_observed_frame_id", stats.status_last_observed_frame_id as u128);
    push_number(&mut text, "status_frames_complete", stats.status_frames_complete as u128);
    push_number(&mut text, "status_frames_skipped", stats.status_frames_skipped as u128);
    text
}

} // verus!
